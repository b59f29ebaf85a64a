//! What package registries and version trackers answer, and what follows from
//! it.

use crate::makefile_parser::ParsedMakefile;
use crate::outside;
use crate::pages;
use crate::tags;
use crate::text;
use crate::text::Class;
use crate::upstream;
use crate::upstream::{Info, UpstreamInfo};
use crate::version;
use vstd::prelude::*;

verus! {

// ────────────────────────────────── registries ───────────────────────────────

/// The name that a registry is asked for: the package of the source, or the name
/// of the package where that is empty.
pub open spec fn asked_name(p: ParsedMakefile, package: Seq<char>) -> Seq<char> {
    if package.len() == 0 {
        p.pkg_name@
    } else {
        package
    }
}

/// The name that a registry is asked for.
fn name_for(parsed: &ParsedMakefile, package: &str) -> (r: String)
    ensures
        r@ == asked_name(*parsed, package@),
{
    if text::length(package) == 0 {
        parsed.pkg_name.clone()
    } else {
        text::own(package)
    }
}

/// Where PyPI tells the latest version of a package.
pub fn pypi_api(parsed: &ParsedMakefile, package: &str) -> (r: String)
    ensures
        r@ == "https://pypi.org/pypi/"@ + asked_name(*parsed, package@) + "/json"@,
{
    text::concat3("https://pypi.org/pypi/", &name_for(parsed, package), "/json")
}

/// The result that the version on PyPI gives.
pub fn from_pypi(parsed: &ParsedMakefile, package: &str, version: &str) -> (r: UpstreamInfo)
    ensures
        r@ == upstream::found_of(
            *parsed,
            version@,
            "https://pypi.org/project/"@ + asked_name(*parsed, package@) + "/"@,
            "pypi"@,
            true,
        ),
{
    let url = text::concat3("https://pypi.org/project/", &name_for(parsed, package), "/");
    upstream::found_info(parsed, version, &url, "pypi", true)
}

/// Where crates.io tells the latest version of a package.
pub fn cratesio_api(parsed: &ParsedMakefile, package: &str) -> (r: String)
    ensures
        r@ == "https://crates.io/api/v1/crates/"@ + asked_name(*parsed, package@),
{
    text::concat("https://crates.io/api/v1/crates/", &name_for(parsed, package))
}

/// The result that the version on crates.io gives.
pub fn from_cratesio(parsed: &ParsedMakefile, package: &str, version: &str) -> (r: UpstreamInfo)
    ensures
        r@ == upstream::found_of(
            *parsed,
            version@,
            "https://crates.io/crates/"@ + asked_name(*parsed, package@),
            "crates.io"@,
            true,
        ),
{
    let url = text::concat("https://crates.io/crates/", &name_for(parsed, package));
    upstream::found_info(parsed, version, &url, "crates.io", true)
}

/// Where RubyGems tells the latest version of a package.
pub fn rubygems_api(parsed: &ParsedMakefile, package: &str) -> (r: String)
    ensures
        r@ == "https://rubygems.org/api/v1/gems/"@ + asked_name(*parsed, package@) + ".json"@,
{
    text::concat3("https://rubygems.org/api/v1/gems/", &name_for(parsed, package), ".json")
}

/// The result that the version on RubyGems gives.
pub fn from_rubygems(parsed: &ParsedMakefile, package: &str, version: &str) -> (r: UpstreamInfo)
    ensures
        r@ == upstream::found_of(
            *parsed,
            version@,
            "https://rubygems.org/gems/"@ + asked_name(*parsed, package@),
            "rubygems"@,
            true,
        ),
{
    let url = text::concat("https://rubygems.org/gems/", &name_for(parsed, package));
    upstream::found_info(parsed, version, &url, "rubygems", true)
}

/// Where MetaCPAN tells the latest version of a package.
pub fn cpan_api(parsed: &ParsedMakefile, package: &str) -> (r: String)
    ensures
        r@ == "https://fastapi.metacpan.org/v1/release/"@ + asked_name(*parsed, package@),
{
    text::concat("https://fastapi.metacpan.org/v1/release/", &name_for(parsed, package))
}

/// The result that the version on MetaCPAN gives, without its `v`.
pub fn from_cpan(parsed: &ParsedMakefile, package: &str, version: &str) -> (r: UpstreamInfo)
    ensures
        r@ == upstream::found_of(
            *parsed,
            text::trim_start_of(version@, Class::Is('v')),
            "https://metacpan.org/dist/"@ + asked_name(*parsed, package@),
            "cpan"@,
            true,
        ),
{
    let url = text::concat("https://metacpan.org/dist/", &name_for(parsed, package));
    upstream::found_info(parsed, &text::strip_start(version, Class::Is('v')), &url, "cpan", true)
}

/// The registry that npm packages are looked up in: the mirror that the package
/// is loaded from, if it answers as the registry does.
pub open spec fn npm_base(source_url: Option<Seq<char>>) -> Seq<char> {
    match source_url {
        Some(u) => if text::contains(u, "mirrors.tencent.com/npm"@) {
            "https://mirrors.tencent.com/npm"@
        } else if text::contains(u, "registry.npmmirror.com"@) {
            "https://registry.npmmirror.com"@
        } else {
            "https://registry.npmjs.org"@
        },
        None => "https://registry.npmjs.org"@,
    }
}

/// A package name in the path of the npm registry: the slash of a scope encoded.
pub open spec fn npm_path(name: Seq<char>) -> Seq<char> {
    if text::contains(name, "/"@) {
        text::before(name, "/"@) + "%2F"@ + text::after(name, "/"@)
    } else {
        name
    }
}

/// The registry that npm packages are looked up in.
fn npm_registry(source_url: &Option<String>) -> (r: String)
    ensures
        r@ == npm_base(text::opt_text(*source_url)),
{
    if let Some(u) = source_url {
        if text::has(u, "mirrors.tencent.com/npm") {
            return text::own("https://mirrors.tencent.com/npm");
        }
        if text::has(u, "registry.npmmirror.com") {
            return text::own("https://registry.npmmirror.com");
        }
    }
    text::own("https://registry.npmjs.org")
}

/// A package name in the path of the npm registry.
fn encode_scope(name: &str) -> (r: String)
    ensures
        r@ == npm_path(name@),
{
    proof {
        text::lemma_contains(name@, "/"@);
        reveal_strlit("/");
    }
    match text::find_str(name, "/") {
        Some(i) => {
            let scope = text::take(name, i);
            let rest = text::skip(name, i + 1);
            text::concat3(&scope, "%2F", &rest)
        },
        None => text::own(name),
    }
}

/// Where the npm registry tells the latest version of a package.
pub fn npm_api(parsed: &ParsedMakefile, package: &str) -> (r: String)
    ensures
        r@ == npm_base(text::opt_text(parsed.source_url)) + "/"@ + npm_path(
            asked_name(*parsed, package@),
        ) + "/latest"@,
{
    let base = npm_registry(&parsed.source_url);
    let path = encode_scope(&name_for(parsed, package));
    let mut out = text::concat3(&base, "/", &path);
    out.append("/latest");
    out
}

/// The result that the version on npm gives.
pub fn from_npm(parsed: &ParsedMakefile, package: &str, version: &str) -> (r: UpstreamInfo)
    ensures
        r@ == upstream::found_of(
            *parsed,
            version@,
            "https://www.npmjs.com/package/"@ + asked_name(*parsed, package@),
            "npm"@,
            true,
        ),
{
    let url = text::concat("https://www.npmjs.com/package/", &name_for(parsed, package));
    upstream::found_info(parsed, version, &url, "npm", true)
}

/// Where Hackage lists the versions of a package.
pub fn hackage_api(parsed: &ParsedMakefile, package: &str) -> (r: String)
    ensures
        r@ == "https://hackage.haskell.org/package/"@ + asked_name(*parsed, package@)
            + "/preferred"@,
{
    text::concat3(
        "https://hackage.haskell.org/package/",
        &name_for(parsed, package),
        "/preferred",
    )
}

/// Every version as a candidate.
pub open spec fn all_candidates(vs: Seq<Seq<char>>) -> Seq<Option<Seq<char>>> {
    Seq::new(vs.len(), |i: int| Some(vs[i]))
}

/// The result that the versions on Hackage give: the newest.
pub fn from_hackage(parsed: &ParsedMakefile, package: &str, versions: &Vec<String>) -> (r:
    UpstreamInfo)
    ensures
        ({
            let url = "https://hackage.haskell.org/package/"@ + asked_name(*parsed, package@);
            r@ == (match tags::newest(all_candidates(text::texts(versions@))) {
                Some(i) => upstream::found_of(
                    *parsed,
                    versions@[i]@,
                    url,
                    "hackage"@,
                    true,
                ),
                None => upstream::unknown_of(*parsed, "no hackage versions"@, Some(url)),
            })
        }),
{
    let url = text::concat("https://hackage.haskell.org/package/", &name_for(parsed, package));
    let mut c: Vec<Option<String>> = Vec::new();
    for i in 0..versions.len()
        invariant
            c@.len() == i,
            forall|j: int| 0 <= j < i ==> text::opt_text(#[trigger] c@[j]) == Some(versions@[j]@),
    {
        c.push(Some(versions[i].clone()));
    }
    assert(tags::opt_texts(c@) =~= all_candidates(text::texts(versions@)));
    match tags::newest_of(&c) {
        Some(i) => upstream::found_info(parsed, versions[i].as_str(), &url, "hackage", true),
        None => upstream::unknown_info_with_url(parsed, "no hackage versions", &url),
    }
}

/// Where PECL tells the latest stable version of a package.
pub fn pecl_api(parsed: &ParsedMakefile, package: &str) -> (r: String)
    ensures
        r@ == "https://pecl.php.net/rest/r/"@ + asked_name(*parsed, package@) + "/stable.txt"@,
{
    text::concat3("https://pecl.php.net/rest/r/", &name_for(parsed, package), "/stable.txt")
}

/// The result that the answer of PECL gives; an error where it is empty.
pub fn from_pecl(parsed: &ParsedMakefile, package: &str, body: &str) -> (r: Result<
    UpstreamInfo,
    String,
>)
    ensures
        match r {
            Ok(info) => text::trim(body@).len() > 0 && info@ == upstream::found_of(
                *parsed,
                text::trim(body@),
                "https://pecl.php.net/package/"@ + asked_name(*parsed, package@),
                "pecl"@,
                true,
            ),
            Err(e) => text::trim(body@).len() == 0 && e@ == "pecl returned empty version for "@
                + asked_name(*parsed, package@),
        },
{
    let name = name_for(parsed, package);
    let v = text::trimmed(body);
    if text::length(&v) == 0 {
        return Err(text::concat("pecl returned empty version for ", &name));
    }
    let url = text::concat("https://pecl.php.net/package/", &name);
    Ok(upstream::found_info(parsed, &v, &url, "pecl", true))
}

/// Where Maven Central tells the latest version of an artifact.
pub fn maven_api(group_id: &str, artifact_id: &str) -> (r: String)
    ensures
        r@ == "https://search.maven.org/solrsearch/select?q=g:%22"@ + outside::percent_encoded(
            group_id@,
        ) + "%22+AND+a:%22"@ + outside::percent_encoded(artifact_id@) + "%22&rows=1&wt=json"@,
{
    let mut out = text::concat3(
        "https://search.maven.org/solrsearch/select?q=g:%22",
        &outside::percent_encode(group_id),
        "%22+AND+a:%22",
    );
    out.append(outside::percent_encode(artifact_id).as_str());
    out.append("%22&rows=1&wt=json");
    out
}

/// The result that the versions that Maven Central found give: the first.
pub fn from_maven(
    parsed: &ParsedMakefile,
    group_id: &str,
    artifact_id: &str,
    versions: &Vec<String>,
) -> (r: UpstreamInfo)
    ensures
        ({
            let url = "https://search.maven.org/artifact/"@ + group_id@ + "/"@ + artifact_id@;
            r@ == (if versions@.len() > 0 {
                upstream::found_of(*parsed, versions@[0]@, url, "maven-central"@, true)
            } else {
                upstream::unknown_of(*parsed, "maven artifact not found"@, Some(url))
            })
        }),
{
    let mut url = text::concat3("https://search.maven.org/artifact/", group_id, "/");
    url.append(artifact_id);
    if versions.len() > 0 {
        upstream::found_info(parsed, versions[0].as_str(), &url, "maven-central", true)
    } else {
        upstream::unknown_info_with_url(parsed, "maven artifact not found", &url)
    }
}

/// Where the Go module proxy tells the latest version of a module.
pub fn gomodule_api(module: &str) -> (r: String)
    ensures
        r@ == "https://proxy.golang.org/"@ + module@ + "/@latest"@,
{
    text::concat3("https://proxy.golang.org/", module, "/@latest")
}

/// The result that the version of the Go module proxy gives, without its `v`.
pub fn from_gomodule(parsed: &ParsedMakefile, module: &str, version: &str) -> (r: UpstreamInfo)
    ensures
        r@ == upstream::found_of(
            *parsed,
            text::trim_start_of(version@, Class::Is('v')),
            "https://pkg.go.dev/"@ + module@,
            "go-module"@,
            true,
        ),
{
    let url = text::concat("https://pkg.go.dev/", module);
    let v = text::strip_start(version, Class::Is('v'));
    upstream::found_info(parsed, &v, &url, "go-module", true)
}

// ──────────────────────────── pages and feeds ────────────────────────────────

/// Where SourceForge lists the latest files of a project.
pub fn sourceforge_api(project: &str) -> (r: String)
    ensures
        r@ == "https://sourceforge.net/projects/"@ + project@ + "/rss?limit=20"@,
{
    text::concat3("https://sourceforge.net/projects/", project, "/rss?limit=20")
}

/// The result that the feed of a SourceForge project gives.
pub fn from_sourceforge(parsed: &ParsedMakefile, project: &str, body: &str) -> (r: UpstreamInfo)
    ensures
        ({
            let url = "https://sourceforge.net/projects/"@ + project@ + "/files/"@;
            r@ == (match pages::feed_version(body@, parsed.pkg_version@) {
                Some(v) => upstream::found_of(*parsed, v, url, "sourceforge"@, true),
                None => upstream::unknown_of(*parsed, "could not parse SF version"@, Some(url)),
            })
        }),
{
    let url = text::concat3("https://sourceforge.net/projects/", project, "/files/");
    match pages::extract_version_from_sf_rss(body, &parsed.pkg_version) {
        Some(v) => upstream::found_info(parsed, &v, &url, "sourceforge", true),
        None => upstream::unknown_info_with_url(parsed, "could not parse SF version", &url),
    }
}

/// Whether a package on kernel.org is the kernel itself, whose releases have a
/// list of their own.
pub fn is_kernel(parsed: &ParsedMakefile, package: &str) -> (r: bool)
    ensures
        r == (asked_name(*parsed, package@) == "linux"@ || asked_name(*parsed, package@)
            == "kernel"@),
{
    let name = name_for(parsed, package);
    text::same(&name, "linux") || text::same(&name, "kernel")
}

/// Where kernel.org lists the tarballs of a package.
pub fn kernelorg_index(parsed: &ParsedMakefile, package: &str) -> (r: String)
    ensures
        r@ == "https://www.kernel.org/pub/linux/utils/"@ + asked_name(*parsed, package@) + "/"@,
{
    text::concat3("https://www.kernel.org/pub/linux/utils/", &name_for(parsed, package), "/")
}

/// The result that the tarballs of a package on kernel.org give.
pub fn from_kernelorg(parsed: &ParsedMakefile, package: &str, body: &str) -> (r: UpstreamInfo)
    ensures
        ({
            let url = "https://www.kernel.org/pub/linux/utils/"@ + asked_name(*parsed, package@)
                + "/"@;
            r@ == (match pages::index_version(body@, parsed.pkg_version@) {
                Some(v) => upstream::found_of(*parsed, v, url, "kernel.org"@, true),
                None => upstream::unknown_of(
                    *parsed,
                    "could not parse kernel.org version"@,
                    Some(url),
                ),
            })
        }),
{
    let url = kernelorg_index(parsed, package);
    match pages::extract_version_from_html_index(body, &parsed.pkg_version) {
        Some(v) => upstream::found_info(parsed, &v, &url, "kernel.org", true),
        None => upstream::unknown_info_with_url(parsed, "could not parse kernel.org version", &url),
    }
}

/// A release of the kernel.
#[derive(Debug, Clone)]
pub struct KernelRelease {
    pub version: String,
    /// the kind of release, such as `stable` or `longterm`
    pub moniker: String,
}

/// The position of the first stable or long-term release.
pub open spec fn first_kernel(rs: Seq<KernelRelease>) -> Option<int>
    decreases rs.len(),
{
    if rs.len() == 0 {
        None
    } else {
        match first_kernel(rs.drop_last()) {
            Some(i) => Some(i),
            None => if rs.last().moniker@ == "stable"@ || rs.last().moniker@ == "longterm"@ {
                Some(rs.len() - 1)
            } else {
                None
            },
        }
    }
}

/// Where kernel.org lists the releases of the kernel.
pub const KERNEL_RELEASES: &'static str = "https://www.kernel.org/releases.json";

proof fn lemma_first_kernel(rs: Seq<KernelRelease>, i: int)
    requires
        0 <= i < rs.len(),
        first_kernel(rs.take(i)) is None,
        rs[i].moniker@ == "stable"@ || rs[i].moniker@ == "longterm"@,
    ensures
        first_kernel(rs) == Some(i),
    decreases rs.len(),
{
    if i == rs.len() - 1 {
        assert(rs.drop_last() =~= rs.take(i));
    } else {
        assert(rs.drop_last().take(i) =~= rs.take(i));
        lemma_first_kernel(rs.drop_last(), i);
    }
}

/// The result that the releases of the kernel give.
pub fn from_kernel_releases(parsed: &ParsedMakefile, releases: &Vec<KernelRelease>) -> (r:
    UpstreamInfo)
    ensures
        r@ == (match first_kernel(releases@) {
            Some(i) => upstream::found_of(
                *parsed,
                text::trim_start_of(releases@[i].version@, Class::Is('v')),
                "https://www.kernel.org/"@,
                "kernel.org"@,
                true,
            ),
            None => upstream::unknown_of(
                *parsed,
                "no stable kernel found"@,
                Some("https://www.kernel.org/"@),
            ),
        }),
{
    for i in 0..releases.len()
        invariant
            first_kernel(releases@.take(i as int)) is None,
    {
        proof {
            assert(releases@.take(i + 1).drop_last() =~= releases@.take(i as int));
        }
        let rel = &releases[i];
        if text::same(&rel.moniker, "stable") || text::same(&rel.moniker, "longterm") {
            proof {
                lemma_first_kernel(releases@, i as int);
            }
            let v = text::strip_start(&rel.version, Class::Is('v'));
            return upstream::found_info(
                parsed,
                &v,
                "https://www.kernel.org/",
                "kernel.org",
                true,
            );
        }
    }
    assert(releases@.take(releases@.len() as int) =~= releases@);
    upstream::unknown_info_with_url(parsed, "no stable kernel found", "https://www.kernel.org/")
}

// ────────────────────────────────── trackers ─────────────────────────────────

/// A package as Repology knows it.
#[derive(Debug, Clone)]
pub struct RepologyPackage {
    pub version: String,
    pub status: Option<String>,
}

/// The name of a package in Repology's URLs.
pub open spec fn repology_name(name: Seq<char>) -> Seq<char> {
    text::replace(outside::lower(name), "_"@, "-"@)
}

/// The name of a package in Repology's URLs.
fn repology_project(name: &str) -> (r: String)
    ensures
        r@ == repology_name(name@),
{
    text::replaced(&outside::to_lowercase(name), "_", "-")
}

/// Where Repology's API lists a project.
pub fn repology_api(parsed: &ParsedMakefile) -> (r: String)
    ensures
        r@ == "https://repology.org/api/v1/project/"@ + repology_name(parsed.pkg_name@),
{
    text::concat("https://repology.org/api/v1/project/", &repology_project(&parsed.pkg_name))
}

/// How many of some parts are numbers.
pub open spec fn number_count(parts: Seq<Seq<char>>) -> nat
    decreases parts.len(),
{
    if parts.len() == 0 {
        0
    } else if text::parse_uint(parts.last(), u64::MAX as nat) is Some {
        number_count(parts.drop_last()) + 1
    } else {
        number_count(parts.drop_last())
    }
}

/// Whether a version can be a real one: fewer than six numbers, none above 9999.
pub open spec fn is_sane(v: Seq<char>) -> bool {
    let parts = text::split_on(v, '.');
    number_count(parts) < 6 && forall|i: int|
        0 <= i < parts.len() ==> version::part_value(#[trigger] parts[i]) <= 9999
}

/// The versions of some packages of Repology that come into question.
pub open spec fn repology_candidates(ps: Seq<RepologyPackage>) -> Seq<Option<Seq<char>>> {
    Seq::new(
        ps.len(),
        |i: int|
            if (text::opt_text(ps[i].status) == Some("newest"@) || text::opt_text(ps[i].status)
                == Some("unique"@)) && is_sane(ps[i].version@) {
                Some(ps[i].version@)
            } else {
                None
            },
    )
}

/// Whether a version can be a real one.
fn sane(v: &str) -> (r: bool)
    ensures
        r == is_sane(v@),
{
    let parts = text::parts_of(v, '.');
    let ghost all = text::texts(parts@);
    let mut count: usize = 0;
    let mut small = true;
    for i in 0..parts.len()
        invariant
            all == text::texts(parts@),
            count <= i,
            count == number_count(all.take(i as int)),
            small == (forall|j: int| 0 <= j < i ==> version::part_value(#[trigger] all[j]) <= 9999),
    {
        proof {
            assert(all.take(i + 1).drop_last() =~= all.take(i as int));
        }
        if let Some(n) = text::parse_number(parts[i].as_str(), u64::MAX) {
            count = count + 1;
            if n > 9999 {
                assert(version::part_value(all[i as int]) > 9999);
                small = false;
            }
        }
    }
    assert(all.take(parts@.len() as int) =~= all);
    count < 6 && small
}

/// Whether an optional text is a given one.
fn is_text(o: &Option<String>, s: &str) -> (r: bool)
    ensures
        r == (text::opt_text(*o) == Some(s@)),
{
    match o {
        Some(t) => text::same(t, s),
        None => false,
    }
}

/// The result that the packages of Repology give: the newest that some
/// repository holds for the newest; an error where there is none.
pub fn from_repology(parsed: &ParsedMakefile, packages: &Vec<RepologyPackage>) -> (r: Result<
    UpstreamInfo,
    String,
>)
    ensures
        match (r, tags::newest_last(repology_candidates(packages@))) {
            (Ok(info), Some(i)) => info@ == upstream::found_of(
                *parsed,
                packages@[i].version@,
                "https://repology.org/project/"@ + repology_name(parsed.pkg_name@) + "/versions"@,
                "repology"@,
                true,
            ),
            (Err(e), None) => e@ == "no newest version in repology for "@ + parsed.pkg_name@,
            _ => false,
        },
{
    let mut c: Vec<Option<String>> = Vec::new();
    for i in 0..packages.len()
        invariant
            c@.len() == i,
            forall|j: int|
                0 <= j < i ==> text::opt_text(#[trigger] c@[j]) == repology_candidates(
                    packages@,
                )[j],
    {
        let pkg = &packages[i];
        if (is_text(&pkg.status, "newest") || is_text(&pkg.status, "unique")) && sane(
            &pkg.version,
        ) {
            c.push(Some(pkg.version.clone()));
        } else {
            c.push(None);
        }
    }
    assert(tags::opt_texts(c@) =~= repology_candidates(packages@));
    match tags::newest_last_of(&c) {
        Some(i) => {
            let url = text::concat3(
                "https://repology.org/project/",
                &repology_project(&parsed.pkg_name),
                "/versions",
            );
            Ok(upstream::found_info(parsed, &packages[i].version, &url, "repology", true))
        },
        None => Err(text::concat("no newest version in repology for ", &parsed.pkg_name)),
    }
}

/// A project as Anitya knows it.
#[derive(Debug, Clone)]
pub struct AnityaProject {
    pub latest_version: Option<String>,
    pub version: Option<String>,
    pub homepage: Option<String>,
}

/// Where Anitya's API is searched for a package.
pub fn anitya_api(parsed: &ParsedMakefile) -> (r: String)
    ensures
        r@ == "https://release-monitoring.org/api/v2/projects/?name="@ + outside::percent_encoded(
            parsed.pkg_name@,
        ) + "&distribution=Fedora"@,
{
    text::concat3(
        "https://release-monitoring.org/api/v2/projects/?name=",
        &outside::percent_encode(&parsed.pkg_name),
        "&distribution=Fedora",
    )
}

/// The host of a URL in lower case, if it has one.
pub open spec fn lower_host(url: Option<Seq<char>>) -> Option<Seq<char>> {
    match url {
        Some(u) => match outside::url_host(u) {
            Some(h) => Some(outside::lower(h)),
            None => None,
        },
        None => None,
    }
}

/// Whether one of two hosts is part of the other.
pub open spec fn hosts_meet(a: Option<Seq<char>>, b: Option<Seq<char>>) -> bool {
    match (a, b) {
        (Some(x), Some(y)) => text::contains(x, y) || text::contains(y, x),
        _ => false,
    }
}

/// The position of the first homepage whose host meets that of the source, else
/// the first of all; none of none.
pub open spec fn project_at(
    hosts: Seq<Option<Seq<char>>>,
    source_host: Option<Seq<char>>,
) -> Option<int> {
    if hosts.len() == 0 {
        None
    } else if exists|i: int| 0 <= i < hosts.len() && hosts_meet(#[trigger] hosts[i], source_host) {
        Some(first_meeting(hosts, source_host))
    } else {
        Some(0)
    }
}

/// The position of the first host that meets another.
pub open spec fn first_meeting(hosts: Seq<Option<Seq<char>>>, host: Option<Seq<char>>) -> int
    decreases hosts.len(),
{
    if hosts.len() == 0 || hosts_meet(hosts[0], host) {
        0
    } else {
        1 + first_meeting(hosts.skip(1), host)
    }
}

/// The first URL of a package.
pub open spec fn main_url(p: ParsedMakefile) -> Option<Seq<char>> {
    if p.source_urls@.len() > 0 {
        Some(p.source_urls@[0]@)
    } else {
        text::opt_text(p.source_url)
    }
}

/// The hosts of the homepages of some projects.
pub open spec fn homepage_hosts(items: Seq<AnityaProject>) -> Seq<Option<Seq<char>>> {
    Seq::new(items.len(), |i: int| lower_host(text::opt_text(items[i].homepage)))
}

/// The version of a project.
pub open spec fn project_version(p: AnityaProject) -> Option<Seq<char>> {
    match p.latest_version {
        Some(v) => Some(v@),
        None => text::opt_text(p.version),
    }
}

/// The host of a URL in lower case, if it has one.
fn host_lower(url: &Option<String>) -> (r: Option<String>)
    ensures
        text::opt_text(r) == lower_host(text::opt_text(*url)),
{
    match url {
        Some(u) => match outside::host_of(u) {
            Some(h) => Some(outside::to_lowercase(&h)),
            None => None,
        },
        None => None,
    }
}

/// Whether one of two hosts is part of the other.
fn meet(a: &Option<String>, b: &Option<String>) -> (r: bool)
    ensures
        r == hosts_meet(text::opt_text(*a), text::opt_text(*b)),
{
    match (a, b) {
        (Some(x), Some(y)) => text::has(x, y) || text::has(y, x),
        _ => false,
    }
}

proof fn lemma_first_meeting(hosts: Seq<Option<Seq<char>>>, host: Option<Seq<char>>, i: int)
    requires
        0 <= i < hosts.len(),
        hosts_meet(hosts[i], host),
        forall|j: int| 0 <= j < i ==> !hosts_meet(#[trigger] hosts[j], host),
    ensures
        first_meeting(hosts, host) == i,
    decreases i,
{
    if i > 0 {
        assert(!hosts_meet(hosts[0], host));
        let rest = hosts.skip(1);
        assert(rest[i - 1] == hosts[i]);
        assert forall|j: int| 0 <= j < i - 1 implies !hosts_meet(#[trigger] rest[j], host) by {
            assert(rest[j] == hosts[j + 1]);
        }
        lemma_first_meeting(rest, host, i - 1);
    }
}

/// The position of the project that a package is taken for, from the hosts of
/// the homepages and of the source.
pub fn choose_project(hosts: &Vec<Option<String>>, source_host: &Option<String>) -> (r: Option<
    usize,
>)
    ensures
        match r {
            Some(i) => project_at(tags::opt_texts(hosts@), text::opt_text(*source_host)) == Some(
                i as int,
            ) && i < hosts@.len(),
            None => project_at(
                tags::opt_texts(hosts@),
                text::opt_text(*source_host),
            ) is None,
        },
{
    let ghost all = tags::opt_texts(hosts@);
    let ghost host = text::opt_text(*source_host);
    if hosts.len() == 0 {
        return None;
    }
    for i in 0..hosts.len()
        invariant
            all == tags::opt_texts(hosts@),
            host == text::opt_text(*source_host),
            forall|j: int| 0 <= j < i ==> !hosts_meet(#[trigger] all[j], host),
    {
        if meet(&hosts[i], source_host) {
            proof {
                assert(hosts_meet(all[i as int], host));
                lemma_first_meeting(all, host, i as int);
            }
            return Some(i);
        }
    }
    Some(0)
}

/// The result that the projects of Anitya give; an error where none tells a
/// version.
pub open spec fn anitya_result(
    p: ParsedMakefile,
    items: Seq<AnityaProject>,
    hosts: Seq<Option<Seq<char>>>,
    source_host: Option<Seq<char>>,
) -> Option<Info> {
    match project_at(hosts, source_host) {
        Some(i) => match project_version(items[i]) {
            Some(v) => Some(
                upstream::found_of(
                    p,
                    v,
                    "https://release-monitoring.org/projects/search/?pattern="@ + p.pkg_name@,
                    "anitya"@,
                    true,
                ),
            ),
            None => None,
        },
        None => None,
    }
}

/// The result that the projects of Anitya give.
pub fn from_anitya(parsed: &ParsedMakefile, items: &Vec<AnityaProject>) -> (r: Result<
    UpstreamInfo,
    String,
>)
    ensures
        match (r, anitya_result(
            *parsed,
            items@,
            homepage_hosts(items@),
            lower_host(main_url(*parsed)),
        )) {
            (Ok(info), Some(i)) => info@ == i,
            (Err(e), None) => e@ == "not found in anitya: "@ + parsed.pkg_name@,
            _ => false,
        },
{
    let main = if parsed.source_urls.len() > 0 {
        Some(parsed.source_urls[0].clone())
    } else {
        text::own_opt(&parsed.source_url)
    };
    let source_host = host_lower(&main);
    let mut hosts: Vec<Option<String>> = Vec::new();
    for i in 0..items.len()
        invariant
            hosts@.len() == i,
            forall|j: int|
                0 <= j < i ==> text::opt_text(#[trigger] hosts@[j]) == lower_host(
                    text::opt_text(items@[j].homepage),
                ),
    {
        hosts.push(host_lower(&items[i].homepage));
    }
    assert(tags::opt_texts(hosts@) =~= homepage_hosts(items@));
    if let Some(i) = choose_project(&hosts, &source_host) {
        let v = match &items[i].latest_version {
            Some(v) => Some(v.clone()),
            None => text::own_opt(&items[i].version),
        };
        if let Some(v) = v {
            let url = text::concat(
                "https://release-monitoring.org/projects/search/?pattern=",
                &parsed.pkg_name,
            );
            return Ok(upstream::found_info(parsed, &v, &url, "anitya", true));
        }
    }
    Err(text::concat("not found in anitya: ", &parsed.pkg_name))
}

/// The first commit of a list; an error where there is none.
pub fn first_commit(shas: &Vec<String>) -> (r: Result<String, String>)
    ensures
        match r {
            Ok(sha) => shas@.len() > 0 && sha@ == shas@[0]@,
            Err(e) => shas@.len() == 0 && e@ == "no commits found"@,
        },
{
    if shas.len() > 0 {
        Ok(shas[0].clone())
    } else {
        Err(text::own("no commits found"))
    }
}

} // verus!

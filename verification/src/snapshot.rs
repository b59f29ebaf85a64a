//! The versions that the last run saw, so that the next one can tell what has
//! changed.

use crate::reporter::CheckResult;
use crate::text;
use crate::vars;
use crate::vars::VarMap;
use vstd::prelude::*;

verus! {

/// The last known upstream version of each package.
#[derive(Debug, Clone)]
pub struct Snapshot {
    pub versions: VarMap,
}

impl Default for Snapshot {
    /// A snapshot of no package.
    fn default() -> (r: Self)
        ensures
            r.versions@ == Map::<Seq<char>, Seq<char>>::empty(),
    {
        Snapshot { versions: VarMap::new() }
    }
}

/// Whether a version is not the one that is known of a package; that of a package
/// of which none is known has changed.
pub open spec fn differs(
    known: Map<Seq<char>, Seq<char>>,
    name: Seq<char>,
    latest: Seq<char>,
) -> bool {
    vars::lookup(known, name) != Some(latest)
}

/// What is known after some results: the latest versions that they found.
pub open spec fn known_after(
    known: Map<Seq<char>, Seq<char>>,
    results: Seq<CheckResult>,
) -> Map<Seq<char>, Seq<char>>
    decreases results.len(),
{
    if results.len() == 0 {
        known
    } else {
        let before = known_after(known, results.drop_last());
        let info = results.last().upstream;
        match info.latest_version {
            Some(v) => before.insert(info.pkg_name@, v@),
            None => before,
        }
    }
}

/// Whether a result found a version that is not the one that is known.
pub open spec fn is_change(known: Map<Seq<char>, Seq<char>>, r: CheckResult) -> bool {
    match r.upstream.latest_version {
        Some(v) => differs(known, r.upstream.pkg_name@, v@),
        None => false,
    }
}

impl Snapshot {
    /// Whether nothing is known yet.
    pub fn is_first_run(&self) -> (r: bool)
        ensures
            r == (self.versions@ == Map::<Seq<char>, Seq<char>>::empty()),
    {
        self.versions.is_empty()
    }

    /// Whether a version is not the one that is known of a package.
    pub fn has_changed(&self, pkg_name: &str, latest_version: &str) -> (r: bool)
        ensures
            r == differs(self.versions@, pkg_name@, latest_version@),
    {
        match self.versions.get(pkg_name) {
            Some(prev) => !text::same(&prev, latest_version),
            None => true,
        }
    }

    /// Notes the version of a package.
    pub fn update(&mut self, pkg_name: &str, latest_version: &str)
        ensures
            final(self).versions@ == old(self).versions@.insert(pkg_name@, latest_version@),
    {
        self.versions.insert(text::own(pkg_name), text::own(latest_version));
    }

    /// Notes the versions that some results found.
    pub fn apply_results(&mut self, results: &Vec<CheckResult>)
        ensures
            final(self).versions@ == known_after(old(self).versions@, results@),
    {
        let ghost was = self.versions@;
        for i in 0..results.len()
            invariant
                self.versions@ == known_after(was, results@.take(i as int)),
        {
            proof {
                assert(results@.take(i + 1).drop_last() =~= results@.take(i as int));
            }
            let info = &results[i].upstream;
            if let Some(v) = &info.latest_version {
                self.update(&info.pkg_name, v);
            }
        }
        assert(results@.take(results@.len() as int) =~= results@);
    }

    /// The positions of the results that found a new version.
    pub fn changes(&self, results: &Vec<CheckResult>) -> (r: Vec<usize>)
        ensures
            forall|k: int| 0 <= k < r@.len() ==> (#[trigger] r@[k]) < results@.len(),
            forall|k: int, l: int| 0 <= k < l < r@.len() ==> r@[k] < r@[l],
            forall|i: int|
                0 <= i < results@.len() ==> (is_change(self.versions@, #[trigger] results@[i])
                    <==> r@.contains(i as usize)),
    {
        let mut out: Vec<usize> = Vec::new();
        for i in 0..results.len()
            invariant
                forall|k: int| 0 <= k < out@.len() ==> (#[trigger] out@[k]) < i,
                forall|k: int, l: int| 0 <= k < l < out@.len() ==> out@[k] < out@[l],
                forall|j: int|
                    0 <= j < i ==> (is_change(self.versions@, #[trigger] results@[j])
                        <==> out@.contains(j as usize)),
        {
            let info = &results[i].upstream;
            let ghost was = out@;
            let changed = match &info.latest_version {
                Some(v) => self.has_changed(&info.pkg_name, v),
                None => false,
            };
            if changed {
                out.push(i);
            }
            proof {
                assert forall|j: int| 0 <= j < i + 1 implies (is_change(
                    self.versions@,
                    #[trigger] results@[j],
                ) <==> out@.contains(j as usize)) by {
                    if changed {
                        assert(out@[was.len() as int] == i);
                        if j < i {
                            if was.contains(j as usize) {
                                let k = choose|k: int| 0 <= k < was.len() && was[k] == j as usize;
                                assert(out@[k] == j as usize);
                            }
                            if out@.contains(j as usize) {
                                let k = choose|k: int|
                                    0 <= k < out@.len() && out@[k] == j as usize;
                                assert(was[k] == j as usize);
                            }
                        }
                    }
                }
            }
        }
        out
    }
}

// ──────────────────────────────────── laws ───────────────────────────────────

/// A version that has been noted has not changed, and what is known of other
/// packages stays.
pub proof fn law_noted_version_is_known(
    known: Map<Seq<char>, Seq<char>>,
    name: Seq<char>,
    latest: Seq<char>,
    other: Seq<char>,
    other_latest: Seq<char>,
)
    ensures
        !differs(known.insert(name, latest), name, latest),
        other != name ==> differs(known.insert(name, latest), other, other_latest) == differs(
            known,
            other,
            other_latest,
        ),
{
}

/// A package that is not known has changed.
pub proof fn law_new_package_has_changed(
    known: Map<Seq<char>, Seq<char>>,
    name: Seq<char>,
    latest: Seq<char>,
)
    requires
        !known.dom().contains(name),
    ensures
        differs(known, name, latest),
{
}

/// After the results of a run have been noted, the same results are no changes:
/// of each package the last one with a version counts.
pub proof fn law_same_results_are_no_changes(
    known: Map<Seq<char>, Seq<char>>,
    results: Seq<CheckResult>,
    i: int,
)
    requires
        0 <= i < results.len(),
        forall|j: int|
            i < j < results.len() && (#[trigger] results[j]).upstream.latest_version is Some
                ==> results[j].upstream.pkg_name@ != results[i].upstream.pkg_name@,
    ensures
        !is_change(known_after(known, results), results[i]),
    decreases results.len(),
{
    if i < results.len() - 1 {
        let front = results.drop_last();
        assert(front[i] == results[i]);
        assert forall|j: int| i < j < front.len() && (
        #[trigger] front[j]).upstream.latest_version is Some implies front[j].upstream.pkg_name@
            != front[i].upstream.pkg_name@ by {
            assert(front[j] == results[j]);
        }
        law_same_results_are_no_changes(known, front, i);
        assert(results[results.len() - 1] == results.last());
    }
}

/// What is known of a package that no result found a version of stays.
pub proof fn law_packages_without_version_keep_theirs(
    known: Map<Seq<char>, Seq<char>>,
    results: Seq<CheckResult>,
    name: Seq<char>,
)
    requires
        forall|j: int|
            0 <= j < results.len() && (#[trigger] results[j]).upstream.latest_version is Some
                ==> results[j].upstream.pkg_name@ != name,
    ensures
        vars::lookup(known_after(known, results), name) == vars::lookup(known, name),
    decreases results.len(),
{
    if results.len() > 0 {
        let front = results.drop_last();
        assert forall|j: int| 0 <= j < front.len() && (
        #[trigger] front[j]).upstream.latest_version is Some implies front[j].upstream.pkg_name@
            != name by {
            assert(front[j] == results[j]);
        }
        law_packages_without_version_keep_theirs(known, front, name);
        assert(results[results.len() - 1] == results.last());
    }
}

} // verus!

//! What holds of the overlay whatever the graph and the marks.
use vstd::prelude::*;
use crate::depcache::{initial_marks, keep_marks, PkgDepCache};
use crate::graph::PackageGraph;
use crate::package::BaseDep;
use crate::resolver::{
    fix_bases, fix_groups, fix_marks, fix_pass, fix_rounds, fix_targets, lemma_conflict_free_count, no_worse,
    takes,
};
use crate::install::only_installs;
use crate::upgrade::{lift_each, lifted, lifts, removes_nothing};
use crate::rules::{
    Policy, conflict_free, conflicted, hit, lemma_swept_flags, marks_wf, reachable, rival, swept, targets_rival,
    bases_rival, version_clashes, Mark, SelectedState,
};

verus! {

/// To mark a package for keep a second time changes nothing: the marks
/// after the second marking are those after the first.
pub proof fn law_keep_is_idempotent(g: &PackageGraph, marks: Seq<Mark>, p: int)
    ensures
        keep_marks(g, keep_marks(g, marks, p), p) == keep_marks(g, marks, p),
{
    assert(keep_marks(g, keep_marks(g, marks, p), p) =~= keep_marks(g, marks, p));
}

/// To mark for keep a package that was never marked changes nothing.
pub proof fn law_keep_of_unmarked(g: &PackageGraph, p: int)
    ensures
        keep_marks(g, initial_marks(g), p) == initial_marks(g),
{
    assert(keep_marks(g, initial_marks(g), p) =~= initial_marks(g));
}

/// The state after a package is marked for keep, and the state after it is
/// marked for keep once more, have the same marks and the same flags.
pub proof fn law_keep_twice_same_state(
    g: &PackageGraph,
    start: &PkgDepCache,
    once: &PkgDepCache,
    twice: &PkgDepCache,
    p: int,
)
    requires
        start.wf(g),
        once.settled(g, start, keep_marks(g, start.marks(), p)),
        twice.settled(g, once, keep_marks(g, once.marks(), p)),
    ensures
        twice.marks() == once.marks(),
        twice.flags() == once.flags(),
{
    law_keep_is_idempotent(g, start.marks(), p);
    if once.depth() == 0 {
        lemma_swept_flags(g, once.policy(), once.marks(), once.flags());
        lemma_swept_flags(g, twice.policy(), twice.marks(), twice.flags());
    }
}

/// A package that is marked for installation has a candidate, and the
/// candidate is a version of that package.
pub proof fn law_install_has_candidate(g: &PackageGraph, cache: &PkgDepCache, p: int)
    requires
        cache.wf(g),
        0 <= p < g.npkg(),
        cache.marks()[p].selected == SelectedState::Install,
    ensures
        cache.marks()[p].candidate matches Some(v) && v < g.nver() && g.owner(v as int) == p,
{
}

/// A package that is held back is never marked for installation.
pub proof fn law_held_is_not_marked(g: &PackageGraph, cache: &PkgDepCache, p: int)
    requires
        cache.wf(g),
        0 <= p < g.npkg(),
        g.packages@[p].held(),
    ensures
        cache.marks()[p].selected != SelectedState::Install,
{
}

/// Where nothing has happened but that packages were marked for
/// installation, nothing has been marked for removal: so the resolver
/// removes nothing.
pub proof fn law_installing_removes_nothing(a: Seq<Mark>, b: Seq<Mark>)
    requires
        only_installs(a, b),
    ensures
        removes_nothing(a, b),
{
}

/// Where no action group is open, a package is flagged as garbage exactly
/// where it is an automatic one and no root keeps it alive.
pub proof fn law_garbage_is_unreachable(g: &PackageGraph, cache: &PkgDepCache, p: int)
    requires
        cache.wf(g),
        cache.depth() == 0,
        0 <= p < g.npkg(),
    ensures
        cache.flags()[p].garbage <==> cache.marks()[p].auto_installed && !reachable(
            g,
            cache.policy(),
            cache.marks(),
            p,
        ),
{
}

/// Version `v` states a conflict or a break against version `w`.
pub open spec fn states_clash(g: &PackageGraph, v: int, w: usize) -> bool {
    exists|i: int, j: int|
        0 <= i < g.deps(v).len() && 0 <= j < g.deps(v)[i].base_deps@.len() && (#[trigger] g.deps(
            v,
        )[i]).dep_type.clashing() && (#[trigger] g.deps(v)[i].base_deps@[j])@.targets.contains(w)
}

/// Where no package clashes, no version that is chosen for a package marked
/// for installation states a conflict or a break against the version that
/// is chosen for another such package.
pub proof fn law_no_clash_between_installed(g: &PackageGraph, marks: Seq<Mark>, p: int, q: int)
    requires
        g.wf(),
        marks_wf(g, marks),
        conflict_free(g, marks),
        0 <= p < g.npkg(),
        0 <= q < g.npkg(),
        p != q,
        marks[p].selected == SelectedState::Install,
        marks[q].selected == SelectedState::Install,
    ensures
        marks[p].candidate matches Some(v) && marks[q].candidate matches Some(w) && !states_clash(
            g,
            v as int,
            w,
        ),
{
    let v = marks[p].candidate.unwrap();
    let w = marks[q].candidate.unwrap();
    assert(!conflicted(g, marks, p));
    if states_clash(g, v as int, w) {
        let (i, j) = choose|i: int, j: int|
            0 <= i < g.deps(v as int).len() && 0 <= j < g.deps(v as int)[i].base_deps@.len() && (#[trigger] g.deps(
                v as int,
            )[i]).dep_type.clashing() && (#[trigger] g.deps(v as int)[i].base_deps@[j])@.targets.contains(w);
        let targets = g.deps(v as int)[i].base_deps@[j]@.targets;
        let k = choose|k: int| 0 <= k < targets.len() && targets[k] == w;
        assert(hit(g, marks, false, targets[k], p as usize, true));
        assert(rival(g, marks, targets[k], p as usize));
        assert(targets_rival(g, marks, targets, p as usize));
        assert(bases_rival(g, marks, g.deps(v as int)[i].base_deps@, p as usize));
        assert(version_clashes(g, marks, v as int, p as usize));
    }
}

/// The flags after a sweep depend on the graph, the policy and the marks
/// alone.
pub proof fn law_sweep_is_a_function(g: &PackageGraph, a: &PkgDepCache, b: &PkgDepCache)
    requires
        swept(g, a.policy(), a.marks(), a.flags()),
        swept(g, b.policy(), b.marks(), b.flags()),
        a.policy() == b.policy(),
        a.marks() == b.marks(),
    ensures
        a.flags() == b.flags(),
{
    lemma_swept_flags(g, a.policy(), a.marks(), a.flags());
    lemma_swept_flags(g, b.policy(), b.marks(), b.flags());
}

proof fn lemma_fix_targets_no_worse(g: &PackageGraph, pol: Policy, marks: Seq<Mark>, targets: Seq<usize>, k: int)
    ensures
        no_worse(g, pol, marks, fix_targets(g, pol, marks, targets, k).0),
    decreases targets.len() - k,
{
    if 0 <= k < targets.len() && !takes(g, pol, marks, targets[k]) {
        lemma_fix_targets_no_worse(g, pol, marks, targets, k + 1);
    }
}

proof fn lemma_fix_bases_no_worse(g: &PackageGraph, pol: Policy, marks: Seq<Mark>, bases: Seq<BaseDep>, j: int)
    ensures
        no_worse(g, pol, marks, fix_bases(g, pol, marks, bases, j).0),
    decreases bases.len() - j,
{
    if 0 <= j < bases.len() {
        lemma_fix_targets_no_worse(g, pol, marks, bases[j]@.targets, 0);
        lemma_fix_bases_no_worse(g, pol, marks, bases, j + 1);
    }
}

proof fn lemma_fix_groups_no_worse(g: &PackageGraph, pol: Policy, marks: Seq<Mark>, v: int, i: int)
    ensures
        no_worse(g, pol, marks, fix_groups(g, pol, marks, v, i).0),
    decreases g.deps(v).len() - i,
{
    if 0 <= i < g.deps(v).len() {
        if crate::install::wanting(g, pol, marks, g.deps(v)[i], g.owner(v)) {
            let here = fix_bases(g, pol, marks, g.deps(v)[i].base_deps@, 0);
            lemma_fix_bases_no_worse(g, pol, marks, g.deps(v)[i].base_deps@, 0);
            lemma_fix_groups_no_worse(g, pol, here.0, v, i + 1);
        } else {
            lemma_fix_groups_no_worse(g, pol, marks, v, i + 1);
        }
    }
}

proof fn lemma_fix_pass_no_worse(g: &PackageGraph, pol: Policy, marks: Seq<Mark>, p: int)
    ensures
        no_worse(g, pol, marks, fix_pass(g, pol, marks, p).0),
    decreases g.npkg() - p,
{
    if 0 <= p < g.npkg() {
        let here = match crate::rules::placed(g, marks, false, p) {
            Some(v) => if crate::rules::broken(g, pol, marks, false, p) {
                fix_groups(g, pol, marks, v as int, 0)
            } else {
                (marks, false)
            },
            None => (marks, false),
        };
        match crate::rules::placed(g, marks, false, p) {
            Some(v) => {
                lemma_fix_groups_no_worse(g, pol, marks, v as int, 0);
            },
            None => {},
        }
        lemma_fix_pass_no_worse(g, pol, here.0, p + 1);
    }
}

proof fn lemma_fix_rounds_no_worse(g: &PackageGraph, pol: Policy, marks: Seq<Mark>, rounds: nat)
    ensures
        no_worse(g, pol, marks, fix_rounds(g, pol, marks, rounds)),
    decreases rounds,
{
    if rounds > 0 && crate::depcache::broken_total(g, pol, marks) != 0 {
        let pass = fix_pass(g, pol, marks, 0);
        lemma_fix_pass_no_worse(g, pol, marks, 0);
        if pass.1 {
            lemma_fix_rounds_no_worse(g, pol, pass.0, (rounds - 1) as nat);
        }
    }
}

/// The resolver never leaves more packages broken than it found, nor more
/// packages clashing.
pub proof fn law_fix_is_never_worse(g: &PackageGraph, pol: Policy, marks: Seq<Mark>)
    ensures
        no_worse(g, pol, marks, fix_marks(g, pol, marks)),
{
    lemma_fix_rounds_no_worse(g, pol, marks, crate::resolver::MAX_PASSES as nat);
}

/// A second run of the resolver, with no marking between, leaves no more
/// packages broken than the first.
pub proof fn law_fix_again_is_never_worse(g: &PackageGraph, pol: Policy, marks: Seq<Mark>)
    ensures
        crate::depcache::broken_total(g, pol, fix_marks(g, pol, fix_marks(g, pol, marks)))
            <= crate::depcache::broken_total(g, pol, fix_marks(g, pol, marks)) <= crate::depcache::broken_total(
            g,
            pol,
            marks,
        ),
{
    law_fix_is_never_worse(g, pol, marks);
    law_fix_is_never_worse(g, pol, fix_marks(g, pol, marks));
}

/// Where no two packages marked for installation clash before the resolver
/// runs, none do after it.
pub proof fn law_fix_keeps_conflict_free(g: &PackageGraph, pol: Policy, marks: Seq<Mark>)
    requires
        conflict_free(g, marks),
    ensures
        conflict_free(g, fix_marks(g, pol, marks)),
{
    law_fix_is_never_worse(g, pol, marks);
    lemma_conflict_free_count(g, marks);
    lemma_conflict_free_count(g, fix_marks(g, pol, marks));
}

/// The upgrades that are tried one by one never leave more packages broken
/// than they found, nor more packages clashing.
pub proof fn law_tried_upgrades_are_never_worse(
    g: &PackageGraph,
    pol: Policy,
    marks: Seq<Mark>,
    p: int,
    with_deps: bool,
)
    ensures
        no_worse(g, pol, marks, lift_each(g, pol, marks, p, with_deps)),
    decreases g.npkg() - p,
{
    if 0 <= p < g.npkg() {
        if lifts(g, marks, p) && no_worse(g, pol, marks, lifted(g, pol, marks, p, with_deps)) {
            law_tried_upgrades_are_never_worse(g, pol, lifted(g, pol, marks, p, with_deps), p + 1, with_deps);
        } else {
            law_tried_upgrades_are_never_worse(g, pol, marks, p + 1, with_deps);
        }
    }
}

} // verus!

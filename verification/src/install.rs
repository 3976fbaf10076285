//! Marking a package for installation, and with it what it depends on.
//!
//! The dependencies are followed with a worklist and a budget of one step
//! for each package of the graph, so that no chain of dependencies, however
//! long or circular, makes the marking run on.
use vstd::prelude::*;
use crate::depcache::{deleting, PkgDepCache};
use crate::graph::{base_ok, group_ok, PackageGraph};
use crate::package::{BaseDep, Dependency};
use crate::rules::{
    bases_hit, bases_hit_exec, marks_wf, placed, placed_exec, Mark, Policy, SelectedState,
};

verus! {

/// Version `t` may be put in place for the sake of a dependency: it is the
/// candidate of its package, its pin does not forbid it, and the package is
/// neither held nor marked for removal.
pub open spec fn eligible(g: &PackageGraph, marks: Seq<Mark>, t: usize) -> bool {
    &&& t < g.nver()
    &&& marks[g.owner(t as int) as int].candidate == Some(t)
    &&& g.versions@[t as int].priority >= 0
    &&& !g.packages@[g.owner(t as int) as int].held()
    &&& !deleting(marks[g.owner(t as int) as int])
}

/// The first of `targets`, from position `k` on, that is eligible.
pub open spec fn pick_target(g: &PackageGraph, marks: Seq<Mark>, targets: Seq<usize>, k: int) -> Option<usize>
    decreases targets.len() - k,
{
    if k < 0 || k >= targets.len() {
        None
    } else if eligible(g, marks, targets[k]) {
        Some(targets[k])
    } else {
        pick_target(g, marks, targets, k + 1)
    }
}

/// The first eligible target of the first of the alternatives `bases`, from
/// position `j` on, that has one.
pub open spec fn pick_base(g: &PackageGraph, marks: Seq<Mark>, bases: Seq<BaseDep>, j: int) -> Option<usize>
    decreases bases.len() - j,
{
    if j < 0 || j >= bases.len() {
        None
    } else {
        match pick_target(g, marks, bases[j]@.targets, 0) {
            Some(t) => Some(t),
            None => pick_base(g, marks, bases, j + 1),
        }
    }
}

/// The mark of a package that is to be installed at version `t`.
pub open spec fn install_mark(m: Mark, t: usize, auto: bool) -> Mark {
    Mark { selected: SelectedState::Install, candidate: Some(t), auto_installed: auto, reinstall: m.reinstall }
}

/// The dependency `d` of a version of package `owner` matters, asks for a
/// package, and is not met.
pub open spec fn wanting(g: &PackageGraph, pol: Policy, marks: Seq<Mark>, d: Dependency, owner: usize) -> bool {
    &&& pol.important(d.dep_type)
    &&& d.dep_type.positive()
    &&& !bases_hit(g, marks, false, d.base_deps@, owner, false)
}

/// The marks and the worklist after the dependencies of version `v`, from
/// position `i` on, are gone through in order: for each that is wanting, the
/// package of its first eligible target is marked for installation as an
/// automatic one and pushed on the worklist.
pub open spec fn expand_groups(
    g: &PackageGraph,
    pol: Policy,
    marks: Seq<Mark>,
    stack: Seq<usize>,
    v: int,
    i: int,
) -> (Seq<Mark>, Seq<usize>)
    decreases g.deps(v).len() - i,
{
    if i < 0 || i >= g.deps(v).len() {
        (marks, stack)
    } else {
        let d = g.deps(v)[i];
        if wanting(g, pol, marks, d, g.owner(v)) {
            match pick_base(g, marks, d.base_deps@, 0) {
                Some(t) => {
                    let q = g.owner(t as int);
                    expand_groups(
                        g,
                        pol,
                        marks.update(q as int, install_mark(marks[q as int], t, true)),
                        stack.push(q),
                        v,
                        i + 1,
                    )
                },
                None => expand_groups(g, pol, marks, stack, v, i + 1),
            }
        } else {
            expand_groups(g, pol, marks, stack, v, i + 1)
        }
    }
}

/// The marks after the worklist is worked off, one package for each unit
/// of `fuel`: the package on top is taken off, and the dependencies of the
/// version that will be in place for it are gone through.
pub open spec fn expand_all(g: &PackageGraph, pol: Policy, marks: Seq<Mark>, stack: Seq<usize>, fuel: nat) -> Seq<
    Mark,
>
    decreases fuel,
{
    if fuel == 0 || stack.len() == 0 {
        marks
    } else {
        let p = stack.last();
        let rest = stack.drop_last();
        match placed(g, marks, false, p as int) {
            Some(v) => {
                let (marks2, stack2) = expand_groups(g, pol, marks, rest, v as int, 0);
                expand_all(g, pol, marks2, stack2, (fuel - 1) as nat)
            },
            None => expand_all(g, pol, marks, rest, (fuel - 1) as nat),
        }
    }
}

/// From `a` to `b` nothing has happened but that packages which were not
/// marked for installation have been marked so, at the candidate they had
/// and as automatic ones.
pub open spec fn only_installs(a: Seq<Mark>, b: Seq<Mark>) -> bool {
    &&& a.len() == b.len()
    &&& forall|q: int|
        0 <= q < a.len() ==> #[trigger] b[q] == a[q] || {
            &&& a[q].selected != SelectedState::Install
            &&& a[q].candidate matches Some(t)
            &&& b[q] == install_mark(a[q], t, true)
        }
}

/// Whether a marking of package `p` for installation succeeds: it is a
/// package with a candidate, and it is installed at that candidate, so that
/// nothing is left to do, or it is not held back.
pub open spec fn can_install(g: &PackageGraph, marks: Seq<Mark>, p: int) -> bool {
    &&& 0 <= p < g.npkg()
    &&& marks[p].candidate.is_some()
    &&& g.current(p) == marks[p].candidate || !g.packages@[p].held()
}

/// The marks after package `p` is marked for installation: they stay as
/// they are where the marking fails or `p` is installed at its candidate;
/// else `p` is marked, as an automatic package unless `from_user` is set,
/// and with `auto_inst` its dependencies are followed.
pub open spec fn install_marks(
    g: &PackageGraph,
    pol: Policy,
    marks: Seq<Mark>,
    p: int,
    auto_inst: bool,
    from_user: bool,
) -> Seq<Mark> {
    if !can_install(g, marks, p) || g.current(p) == marks[p].candidate {
        marks
    } else {
        let first = marks.update(p, install_mark(marks[p], marks[p].candidate.unwrap(), !from_user));
        if auto_inst {
            expand_all(g, pol, first, seq![p as usize], g.npkg() as nat)
        } else {
            first
        }
    }
}

fn eligible_exec(g: &PackageGraph, marks: &Vec<Mark>, t: usize) -> (yes: bool)
    requires
        g.wf(),
        marks_wf(g, marks@),
        t < g.nver(),
    ensures
        yes == eligible(g, marks@, t),
{
    assert(g.ver_ok(t as int));
    let q = g.versions[t].pkg;
    let m = marks[q];
    let chosen = match m.candidate {
        Some(c) => c == t,
        None => false,
    };
    let going = match m.selected {
        SelectedState::DeInstall | SelectedState::Purge => true,
        _ => false,
    };
    chosen && g.versions[t].priority >= 0 && !g.packages[q].is_held() && !going
}

fn pick_in(g: &PackageGraph, marks: &Vec<Mark>, b: &BaseDep) -> (found: Option<usize>)
    requires
        g.wf(),
        marks_wf(g, marks@),
        base_ok(*b, g.nver()),
    ensures
        found == pick_target(g, marks@, b@.targets, 0),
        found matches Some(t) ==> eligible(g, marks@, t),
{
    let targets = b.all_targets();
    let mut k: usize = 0;
    while k < targets.len()
        invariant
            g.wf(),
            marks_wf(g, marks@),
            base_ok(*b, g.nver()),
            targets@ == b@.targets,
            k <= targets.len(),
            pick_target(g, marks@, targets@, k as int) == pick_target(g, marks@, targets@, 0),
        decreases targets.len() - k,
    {
        let t = targets[k];
        assert(t == b@.targets[k as int]);
        if eligible_exec(g, marks, t) {
            return Some(t);
        }
        k += 1;
    }
    None
}

/// The version to install for the dependency `d`: the first eligible target
/// of its first alternative that has one.
pub fn pick(g: &PackageGraph, marks: &Vec<Mark>, d: &Dependency) -> (found: Option<usize>)
    requires
        g.wf(),
        marks_wf(g, marks@),
        group_ok(*d, g.nver()),
    ensures
        found == pick_base(g, marks@, d.base_deps@, 0),
        found matches Some(t) ==> eligible(g, marks@, t),
{
    let mut j: usize = 0;
    while j < d.base_deps.len()
        invariant
            g.wf(),
            marks_wf(g, marks@),
            group_ok(*d, g.nver()),
            j <= d.base_deps.len(),
            pick_base(g, marks@, d.base_deps@, j as int) == pick_base(g, marks@, d.base_deps@, 0),
        decreases d.base_deps.len() - j,
    {
        match pick_in(g, marks, &d.base_deps[j]) {
            Some(t) => {
                return Some(t);
            },
            None => {},
        }
        j += 1;
    }
    None
}

/// Two runs of such changes, one after the other, are one such run.
pub proof fn lemma_only_installs_chain(a: Seq<Mark>, b: Seq<Mark>, c: Seq<Mark>)
    requires
        only_installs(a, b),
        only_installs(b, c),
    ensures
        only_installs(a, c),
{
    assert forall|q: int| 0 <= q < a.len() implies #[trigger] c[q] == a[q] || {
        &&& a[q].selected != SelectedState::Install
        &&& a[q].candidate matches Some(t)
        &&& c[q] == install_mark(a[q], t, true)
    } by {
        assert(b[q] == a[q] || b[q].selected == SelectedState::Install);
        assert(c[q] == b[q] || b[q].selected != SelectedState::Install);
    }
}

fn expand_version(
    g: &PackageGraph,
    pol: &Policy,
    marks: &mut Vec<Mark>,
    stack: &mut Vec<usize>,
    v: usize,
)
    requires
        g.wf(),
        marks_wf(g, old(marks)@),
        v < g.nver(),
        forall|i: int| 0 <= i < old(stack)@.len() ==> (#[trigger] old(stack)@[i]) < g.npkg(),
    ensures
        marks_wf(g, final(marks)@),
        forall|i: int| 0 <= i < final(stack)@.len() ==> (#[trigger] final(stack)@[i]) < g.npkg(),
        (final(marks)@, final(stack)@) == expand_groups(g, *pol, old(marks)@, old(stack)@, v as int, 0),
        only_installs(old(marks)@, final(marks)@),
{
    assert(g.ver_ok(v as int));
    let node = &g.versions[v];
    let mut i: usize = 0;
    while i < node.depends.len()
        invariant
            g.wf(),
            marks_wf(g, marks@),
            v < g.nver(),
            g.ver_ok(v as int),
            node.depends@ == g.deps(v as int),
            node.pkg == g.owner(v as int),
            i <= node.depends.len(),
            forall|k: int| 0 <= k < stack@.len() ==> (#[trigger] stack@[k]) < g.npkg(),
            expand_groups(g, *pol, marks@, stack@, v as int, i as int) == expand_groups(
                g,
                *pol,
                old(marks)@,
                old(stack)@,
                v as int,
                0,
            ),
            only_installs(old(marks)@, marks@),
        decreases node.depends.len() - i,
    {
        let d = &node.depends[i];
        assert(group_ok(g.deps(v as int)[i as int], g.nver()));
        if pol.is_important(d.dep_type) && d.dep_type.is_positive() && !bases_hit_exec(
            g,
            marks,
            false,
            d,
            node.pkg,
            false,
        ) {
            match pick(g, marks, d) {
                Some(t) => {
                    assert(g.ver_ok(t as int));
                    let q = g.versions[t].pkg;
                    let m = marks[q];
                    let ghost before = marks@;
                    proof {
                        lemma_picked_is_free(g, *pol, marks@, *d, node.pkg, t);
                    }
                    marks.set(
                        q,
                        Mark {
                            selected: SelectedState::Install,
                            candidate: Some(t),
                            auto_installed: true,
                            reinstall: m.reinstall,
                        },
                    );
                    stack.push(q);
                    proof {
                        assert(only_installs(before, marks@));
                        lemma_only_installs_chain(old(marks)@, before, marks@);
                    }
                },
                None => {},
            }
        }
        i += 1;
    }
}

/// The package of a target that is picked for a wanting dependency is not
/// marked for installation.
proof fn lemma_picked_is_free(
    g: &PackageGraph,
    pol: Policy,
    marks: Seq<Mark>,
    d: Dependency,
    owner: usize,
    t: usize,
)
    requires
        g.wf(),
        marks_wf(g, marks),
        group_ok(d, g.nver()),
        wanting(g, pol, marks, d, owner),
        pick_base(g, marks, d.base_deps@, 0) == Some(t),
    ensures
        eligible(g, marks, t),
        marks[g.owner(t as int) as int].selected != SelectedState::Install,
{
    lemma_pick_base_found(g, marks, d.base_deps@, 0, t);
    let j = choose|j: int| 0 <= j < d.base_deps@.len() && (#[trigger] d.base_deps@[j])@.targets.contains(t);
    let k = choose|k: int| 0 <= k < d.base_deps@[j]@.targets.len() && d.base_deps@[j]@.targets[k] == t;
    assert(g.ver_ok(t as int));
    if marks[g.owner(t as int) as int].selected == SelectedState::Install {
        assert(crate::rules::hit(g, marks, false, d.base_deps@[j]@.targets[k], owner, false));
        assert(crate::rules::targets_hit(g, marks, false, d.base_deps@[j]@.targets, owner, false));
        assert(bases_hit(g, marks, false, d.base_deps@, owner, false));
    }
}

proof fn lemma_pick_target_found(g: &PackageGraph, marks: Seq<Mark>, targets: Seq<usize>, k: int, t: usize)
    requires
        0 <= k,
        pick_target(g, marks, targets, k) == Some(t),
    ensures
        eligible(g, marks, t),
        targets.contains(t),
    decreases targets.len() - k,
{
    if k < targets.len() {
        if eligible(g, marks, targets[k]) {
            assert(targets[k] == t);
        } else {
            lemma_pick_target_found(g, marks, targets, k + 1, t);
        }
    }
}

proof fn lemma_pick_base_found(g: &PackageGraph, marks: Seq<Mark>, bases: Seq<BaseDep>, j: int, t: usize)
    requires
        0 <= j,
        pick_base(g, marks, bases, j) == Some(t),
    ensures
        eligible(g, marks, t),
        exists|m: int| j <= m < bases.len() && (#[trigger] bases[m])@.targets.contains(t),
    decreases bases.len() - j,
{
    if j < bases.len() {
        match pick_target(g, marks, bases[j]@.targets, 0) {
            Some(u) => {
                lemma_pick_target_found(g, marks, bases[j]@.targets, 0, t);
                assert(bases[j]@.targets.contains(t));
            },
            None => {
                lemma_pick_base_found(g, marks, bases, j + 1, t);
            },
        }
    }
}

/// Follows the dependencies of package `start` and of everything that is
/// marked on the way.
pub fn expand(g: &PackageGraph, pol: &Policy, marks: &mut Vec<Mark>, start: usize)
    requires
        g.wf(),
        marks_wf(g, old(marks)@),
        start < g.npkg(),
    ensures
        marks_wf(g, final(marks)@),
        final(marks)@ == expand_all(g, *pol, old(marks)@, seq![start], g.npkg() as nat),
        only_installs(old(marks)@, final(marks)@),
{
    let mut stack: Vec<usize> = Vec::new();
    stack.push(start);
    assert(stack@ =~= seq![start]);
    let mut fuel: usize = g.packages.len();
    while fuel > 0 && stack.len() > 0
        invariant
            g.wf(),
            marks_wf(g, marks@),
            forall|k: int| 0 <= k < stack@.len() ==> (#[trigger] stack@[k]) < g.npkg(),
            expand_all(g, *pol, marks@, stack@, fuel as nat) == expand_all(
                g,
                *pol,
                old(marks)@,
                seq![start],
                g.npkg() as nat,
            ),
            only_installs(old(marks)@, marks@),
        decreases fuel,
    {
        let ghost stack0 = stack@;
        let ghost marks0 = marks@;
        let p = stack.pop().unwrap();
        assert(p == stack0.last());
        assert(stack@ =~= stack0.drop_last());
        match placed_exec(g, marks, false, p) {
            Some(v) => {
                expand_version(g, pol, marks, &mut stack, v);
                proof {
                    lemma_only_installs_chain(old(marks)@, marks0, marks@);
                }
            },
            None => {},
        }
        fuel -= 1;
    }
}

impl PkgDepCache {
    /// Mark a package for installation.
    ///
    /// With `auto_inst`, what the package depends on is marked too: for each
    /// dependency that matters and is not met, the first alternative that
    /// can be installed. With `from_user` the package counts as installed by
    /// hand, else as an automatic one.
    ///
    /// A package that is installed at its candidate gives `true` and
    /// changes nothing, whether it is held back or not. Else the marking
    /// returns `false`, and changes nothing, where `p` is no package, has no
    /// candidate or is held back.
    pub fn mark_install(&mut self, g: &PackageGraph, p: usize, auto_inst: bool, from_user: bool) -> (done:
        bool)
        requires
            old(self).wf(g),
        ensures
            final(self).wf(g),
            done == can_install(g, old(self).marks(), p as int),
            done && g.current(p as int) != old(self).marks()[p as int].candidate ==> {
                &&& final(self).settled(
                    g,
                    old(self),
                    install_marks(g, old(self).policy(), old(self).marks(), p as int, auto_inst, from_user),
                )
                &&& final(self).marks()[p as int].selected == SelectedState::Install
                &&& final(self).marks()[p as int].candidate == old(self).marks()[p as int].candidate
                &&& final(self).marks()[p as int].auto_installed == !from_user
                &&& forall|q: int|
                    0 <= q < g.npkg() && q != p ==> #[trigger] final(self).marks()[q] == old(self).marks()[q]
                        || {
                        &&& auto_inst
                        &&& old(self).marks()[q].selected != SelectedState::Install
                        &&& old(self).marks()[q].candidate matches Some(t)
                        &&& final(self).marks()[q] == install_mark(old(self).marks()[q], t, true)
                    }
            },
            !done || g.current(p as int) == old(self).marks()[p as int].candidate ==> *final(self) == *old(
                self,
            ),
            !done && p < g.npkg() ==> final(self).marks()[p as int].selected != SelectedState::Install,
    {
        if p >= self.marks.len() {
            return false;
        }
        let m = self.marks[p];
        let t = match m.candidate {
            Some(t) => t,
            None => {
                return false;
            },
        };
        assert(g.pkg_ok(p as int));
        match g.packages[p].current {
            Some(c) => {
                if c == t {
                    return true;
                }
            },
            None => {},
        }
        if g.packages[p].is_held() {
            return false;
        }
        self.marks.set(
            p,
            Mark {
                selected: SelectedState::Install,
                candidate: Some(t),
                auto_installed: !from_user,
                reinstall: m.reinstall,
            },
        );
        if auto_inst {
            expand(g, &self.policy, &mut self.marks, p);
        }
        self.settle(g);
        true
    }
}

} // verus!

//! The three upgrades: full, safe, and with new installations.
use vstd::prelude::*;
use crate::depcache::{
    best_version, bump, delete_mark, deleting, may_delete, OperationProgress, PkgDepCache,
};
use crate::graph::{base_ok, group_ok, PackageGraph};
use crate::install::{expand, expand_all};
use crate::package::{BaseDep, Dependency};
use crate::resolver::{advanced, copy_marks, fix_marks, no_worse};
use crate::rules::{broken, marks_wf, swept, Mark, Policy, SelectedState};

verus! {

/// Why an upgrade failed: a package that the upgrade changed is broken.
#[derive(Clone, Copy, Debug, PartialEq, Eq, Structural)]
pub struct ResolverError {
    /// The first such package.
    pub package: usize,
}

/// Package `p` is to be upgraded: it is installed and kept, it is not held,
/// and the planner's choice for it is newer than what is installed.
pub open spec fn lifts(g: &PackageGraph, marks: Seq<Mark>, p: int) -> bool {
    &&& 0 <= p < g.npkg()
    &&& !g.packages@[p].held()
    &&& marks[p].selected == SelectedState::Keep
    &&& match (g.current(p), best_version(g, p)) {
        (Some(c), Some(t)) => t < c,
        _ => false,
    }
}

/// The mark of a package that is upgraded to version `t`: whether it counts
/// as automatic stays as it was.
pub open spec fn upgrade_mark(m: Mark, t: usize) -> Mark {
    Mark { selected: SelectedState::Install, candidate: Some(t), ..m }
}

/// The marks after package `p` is upgraded to the planner's choice, and
/// with `with_deps` its dependencies are followed.
pub open spec fn lifted(g: &PackageGraph, pol: Policy, marks: Seq<Mark>, p: int, with_deps: bool) -> Seq<
    Mark,
> {
    let first = marks.update(p, upgrade_mark(marks[p], best_version(g, p).unwrap()));
    if with_deps {
        expand_all(g, pol, first, seq![p as usize], g.npkg() as nat)
    } else {
        first
    }
}

/// The marks after every package from `p` on that is to be upgraded has
/// been, its dependencies followed.
pub open spec fn lift_all(g: &PackageGraph, pol: Policy, marks: Seq<Mark>, p: int) -> Seq<Mark>
    decreases g.npkg() - p,
{
    if p < 0 || p >= g.npkg() {
        marks
    } else if lifts(g, marks, p) {
        lift_all(g, pol, lifted(g, pol, marks, p, true), p + 1)
    } else {
        lift_all(g, pol, marks, p + 1)
    }
}

/// The marks after the upgrade of each package from `p` on has been tried
/// and taken where it leaves the plan no worse.
pub open spec fn lift_each(g: &PackageGraph, pol: Policy, marks: Seq<Mark>, p: int, with_deps: bool) -> Seq<
    Mark,
>
    decreases g.npkg() - p,
{
    if p < 0 || p >= g.npkg() {
        marks
    } else if lifts(g, marks, p) && no_worse(g, pol, marks, lifted(g, pol, marks, p, with_deps)) {
        lift_each(g, pol, lifted(g, pol, marks, p, with_deps), p + 1, with_deps)
    } else {
        lift_each(g, pol, marks, p + 1, with_deps)
    }
}

/// From the marks `a` to the marks `b` nothing has been marked for removal:
/// a mark for removal in `b` stood in `a` already. So no package that is
/// installed and was to stay is removed.
pub open spec fn removes_nothing(a: Seq<Mark>, b: Seq<Mark>) -> bool {
    &&& a.len() == b.len()
    &&& forall|q: int| 0 <= q < a.len() && deleting(#[trigger] b[q]) ==> b[q] == a[q]
}

/// From the marks `a` to the marks `b` no package that is not installed has
/// been touched: nothing new is installed.
pub open spec fn installs_nothing_new(g: &PackageGraph, a: Seq<Mark>, b: Seq<Mark>) -> bool {
    &&& a.len() == b.len()
    &&& forall|q: int| 0 <= q < a.len() && g.current(q).is_none() ==> #[trigger] b[q] == a[q]
}

/// Package `q` may be removed to make way: it is installed and kept, not
/// held, and not protected as essential.
pub open spec fn removable(g: &PackageGraph, pol: Policy, marks: Seq<Mark>, q: int) -> bool {
    &&& may_delete(g, pol, q)
    &&& marks[q].selected == SelectedState::Keep
    &&& g.current(q).is_some()
    &&& !g.packages@[q].held()
}

/// Version `t` is the installed version of package `q`, which is another
/// package than `owner`.
pub open spec fn bars(g: &PackageGraph, t: usize, owner: usize, q: int) -> bool {
    t < g.nver() && g.owner(t as int) == q && q != owner && g.current(q) == Some(t)
}

pub open spec fn targets_bar(g: &PackageGraph, targets: Seq<usize>, owner: usize, q: int) -> bool {
    exists|k: int| 0 <= k < targets.len() && bars(g, #[trigger] targets[k], owner, q)
}

pub open spec fn bases_bar(g: &PackageGraph, bases: Seq<BaseDep>, owner: usize, q: int) -> bool {
    exists|j: int| 0 <= j < bases.len() && targets_bar(g, (#[trigger] bases[j])@.targets, owner, q)
}

/// The dependency `d` matters and forbids the installed version of `q`.
pub open spec fn group_bars(g: &PackageGraph, pol: Policy, d: Dependency, owner: usize, q: int) -> bool {
    pol.important(d.dep_type) && d.dep_type.negative() && bases_bar(g, d.base_deps@, owner, q)
}

/// Version `v` forbids the installed version of package `q`.
pub open spec fn version_bars(g: &PackageGraph, pol: Policy, v: int, q: int) -> bool {
    exists|i: int| 0 <= i < g.deps(v).len() && group_bars(g, pol, #[trigger] g.deps(v)[i], g.owner(v), q)
}

/// Package `p` is marked for installation at a version that forbids the
/// installed version of package `q`.
pub open spec fn blocks(g: &PackageGraph, pol: Policy, marks: Seq<Mark>, p: int, q: int) -> bool {
    &&& marks[p].selected == SelectedState::Install
    &&& match marks[p].candidate {
        Some(v) => version_bars(g, pol, v as int, q),
        None => false,
    }
}

/// One of the packages below `limit` blocks package `q`.
pub open spec fn blocked_below(g: &PackageGraph, pol: Policy, marks: Seq<Mark>, q: int, limit: int) -> bool {
    exists|p: int| 0 <= p < limit && #[trigger] blocks(g, pol, marks, p, q)
}

/// The marks after every installed package that may be removed and that a
/// package marked for installation forbids is marked for removal.
pub open spec fn cleared(g: &PackageGraph, pol: Policy, marks: Seq<Mark>) -> Seq<Mark> {
    Seq::new(
        marks.len(),
        |q: int|
            if removable(g, pol, marks, q) && blocked_below(g, pol, marks, q, marks.len() as int) {
                delete_mark(marks[q], false)
            } else {
                marks[q]
            },
    )
}

/// Package `p` was changed from the marks `a` to the marks `b`, and is
/// broken under `b`.
pub open spec fn unresolved(g: &PackageGraph, pol: Policy, a: Seq<Mark>, b: Seq<Mark>, p: int) -> bool {
    b[p] != a[p] && broken(g, pol, b, false, p)
}

/// The outcome of an upgrade that led from the marks `a` to the marks `b`:
/// an error that names the first package that was changed and is broken,
/// and success where there is none.
pub open spec fn outcome(
    g: &PackageGraph,
    pol: Policy,
    a: Seq<Mark>,
    b: Seq<Mark>,
    result: Result<(), ResolverError>,
) -> bool {
    match result {
        Ok(_) => forall|p: int| 0 <= p < a.len() ==> !#[trigger] unresolved(g, pol, a, b, p),
        Err(e) => {
            &&& e.package < a.len()
            &&& unresolved(g, pol, a, b, e.package as int)
            &&& forall|p: int| 0 <= p < e.package ==> !#[trigger] unresolved(g, pol, a, b, p)
        },
    }
}

fn same_mark(a: Mark, b: Mark) -> (same: bool)
    ensures
        same == (a == b),
{
    let selected = match (a.selected, b.selected) {
        (SelectedState::Unknown, SelectedState::Unknown) => true,
        (SelectedState::Install, SelectedState::Install) => true,
        (SelectedState::DeInstall, SelectedState::DeInstall) => true,
        (SelectedState::Purge, SelectedState::Purge) => true,
        (SelectedState::Keep, SelectedState::Keep) => true,
        _ => false,
    };
    let candidate = match (a.candidate, b.candidate) {
        (Some(x), Some(y)) => x == y,
        (None, None) => true,
        _ => false,
    };
    selected && candidate && a.auto_installed == b.auto_installed && a.reinstall == b.reinstall
}

/// The first package that was changed since `before` and is broken.
fn verdict(g: &PackageGraph, pol: &Policy, before: &Vec<Mark>, cache: &PkgDepCache) -> (result: Result<
    (),
    ResolverError,
>)
    requires
        g.wf(),
        marks_wf(g, cache.marks()),
        swept(g, *pol, cache.marks(), cache.flags()),
        before@.len() == cache.marks().len(),
    ensures
        outcome(g, *pol, before@, cache.marks(), result),
{
    let mut p: usize = 0;
    while p < before.len()
        invariant
            g.wf(),
            swept(g, *pol, cache.marks(), cache.flags()),
            before@.len() == cache.marks().len(),
            p <= before.len(),
            forall|q: int| 0 <= q < p ==> !#[trigger] unresolved(g, *pol, before@, cache.marks(), q),
        decreases before.len() - p,
    {
        if cache.flags[p].inst_broken && !same_mark(before[p], cache.marks[p]) {
            return Err(ResolverError { package: p });
        }
        p += 1;
    }
    Ok(())
}

fn clear_targets(g: &PackageGraph, pol: &Policy, marks: &mut Vec<Mark>, b: &BaseDep, owner: usize)
    requires
        g.wf(),
        marks_wf(g, old(marks)@),
        base_ok(*b, g.nver()),
    ensures
        marks_wf(g, final(marks)@),
        forall|q: int|
            0 <= q < g.npkg() ==> #[trigger] final(marks)@[q] == if removable(g, *pol, old(marks)@, q)
                && targets_bar(g, b@.targets, owner, q) {
                delete_mark(old(marks)@[q], false)
            } else {
                old(marks)@[q]
            },
{
    let targets = b.all_targets();
    let mut k: usize = 0;
    while k < targets.len()
        invariant
            g.wf(),
            marks_wf(g, marks@),
            base_ok(*b, g.nver()),
            targets@ == b@.targets,
            k <= targets.len(),
            forall|q: int|
                0 <= q < g.npkg() ==> #[trigger] marks@[q] == if removable(g, *pol, old(marks)@, q) && (
                exists|m: int| 0 <= m < k && bars(g, #[trigger] targets@[m], owner, q)) {
                    delete_mark(old(marks)@[q], false)
                } else {
                    old(marks)@[q]
                },
        decreases targets.len() - k,
    {
        let t = targets[k];
        assert(t == b@.targets[k as int]);
        assert(g.ver_ok(t as int));
        let q = g.versions[t].pkg;
        assert(g.pkg_ok(q as int));
        let here = match g.packages[q].current {
            Some(c) => c == t,
            None => false,
        };
        if q != owner && here {
            let m = marks[q];
            let kept = match m.selected {
                SelectedState::Keep => true,
                _ => false,
            };
            if kept && !g.packages[q].is_held() && (!g.packages[q].essential || pol.remove_essential) {
                marks.set(
                    q,
                    Mark {
                        selected: SelectedState::DeInstall,
                        candidate: m.candidate,
                        auto_installed: m.auto_installed,
                        reinstall: m.reinstall,
                    },
                );
            }
        }
        proof {
            assert forall|r: int| 0 <= r < g.npkg() implies #[trigger] marks@[r] == if removable(
                g,
                *pol,
                old(marks)@,
                r,
            ) && (exists|m: int| 0 <= m < k + 1 && bars(g, #[trigger] targets@[m], owner, r)) {
                delete_mark(old(marks)@[r], false)
            } else {
                old(marks)@[r]
            } by {
                if bars(g, targets@[k as int], owner, r) {
                    assert(r == q);
                }
                if exists|m: int| 0 <= m < k + 1 && bars(g, #[trigger] targets@[m], owner, r) {
                    let m = choose|m: int| 0 <= m < k + 1 && bars(g, #[trigger] targets@[m], owner, r);
                    if m < k {
                        assert(bars(g, targets@[m], owner, r));
                    }
                }
            }
        }
        k += 1;
    }
}

fn clear_bases(g: &PackageGraph, pol: &Policy, marks: &mut Vec<Mark>, d: &Dependency, owner: usize)
    requires
        g.wf(),
        marks_wf(g, old(marks)@),
        group_ok(*d, g.nver()),
    ensures
        marks_wf(g, final(marks)@),
        forall|q: int|
            0 <= q < g.npkg() ==> #[trigger] final(marks)@[q] == if removable(g, *pol, old(marks)@, q)
                && bases_bar(g, d.base_deps@, owner, q) {
                delete_mark(old(marks)@[q], false)
            } else {
                old(marks)@[q]
            },
{
    let mut j: usize = 0;
    while j < d.base_deps.len()
        invariant
            g.wf(),
            marks_wf(g, marks@),
            group_ok(*d, g.nver()),
            j <= d.base_deps.len(),
            forall|q: int|
                0 <= q < g.npkg() ==> #[trigger] marks@[q] == if removable(g, *pol, old(marks)@, q) && (
                exists|m: int| 0 <= m < j && targets_bar(g, (#[trigger] d.base_deps@[m])@.targets, owner, q)) {
                    delete_mark(old(marks)@[q], false)
                } else {
                    old(marks)@[q]
                },
        decreases d.base_deps.len() - j,
    {
        clear_targets(g, pol, marks, &d.base_deps[j], owner);
        proof {
            assert forall|r: int| 0 <= r < g.npkg() implies #[trigger] marks@[r] == if removable(
                g,
                *pol,
                old(marks)@,
                r,
            ) && (exists|m: int|
                0 <= m < j + 1 && targets_bar(g, (#[trigger] d.base_deps@[m])@.targets, owner, r)) {
                delete_mark(old(marks)@[r], false)
            } else {
                old(marks)@[r]
            } by {
                if exists|m: int|
                    0 <= m < j + 1 && targets_bar(g, (#[trigger] d.base_deps@[m])@.targets, owner, r) {
                    let m = choose|m: int|
                        0 <= m < j + 1 && targets_bar(g, (#[trigger] d.base_deps@[m])@.targets, owner, r);
                    if m < j {
                        assert(targets_bar(g, d.base_deps@[m]@.targets, owner, r));
                    }
                }
            }
        }
        j += 1;
    }
}

fn clear_version(g: &PackageGraph, pol: &Policy, marks: &mut Vec<Mark>, v: usize)
    requires
        g.wf(),
        marks_wf(g, old(marks)@),
        v < g.nver(),
    ensures
        marks_wf(g, final(marks)@),
        forall|q: int|
            0 <= q < g.npkg() ==> #[trigger] final(marks)@[q] == if removable(g, *pol, old(marks)@, q)
                && version_bars(g, *pol, v as int, q) {
                delete_mark(old(marks)@[q], false)
            } else {
                old(marks)@[q]
            },
{
    assert(g.ver_ok(v as int));
    let node = &g.versions[v];
    let mut i: usize = 0;
    while i < node.depends.len()
        invariant
            g.wf(),
            marks_wf(g, marks@),
            v < g.nver(),
            g.ver_ok(v as int),
            node.depends@ == g.deps(v as int),
            node.pkg == g.owner(v as int),
            i <= node.depends.len(),
            forall|q: int|
                0 <= q < g.npkg() ==> #[trigger] marks@[q] == if removable(g, *pol, old(marks)@, q) && (
                exists|m: int|
                    0 <= m < i && group_bars(g, *pol, #[trigger] g.deps(v as int)[m], g.owner(v as int), q)) {
                    delete_mark(old(marks)@[q], false)
                } else {
                    old(marks)@[q]
                },
        decreases node.depends.len() - i,
    {
        let d = &node.depends[i];
        assert(group_ok(g.deps(v as int)[i as int], g.nver()));
        if pol.is_important(d.dep_type) && d.dep_type.is_negative() {
            clear_bases(g, pol, marks, d, node.pkg);
        }
        proof {
            assert forall|r: int| 0 <= r < g.npkg() implies #[trigger] marks@[r] == if removable(
                g,
                *pol,
                old(marks)@,
                r,
            ) && (exists|m: int|
                0 <= m < i + 1 && group_bars(g, *pol, #[trigger] g.deps(v as int)[m], g.owner(v as int), r)) {
                delete_mark(old(marks)@[r], false)
            } else {
                old(marks)@[r]
            } by {
                if exists|m: int|
                    0 <= m < i + 1 && group_bars(g, *pol, #[trigger] g.deps(v as int)[m], g.owner(v as int), r) {
                    let m = choose|m: int|
                        0 <= m < i + 1 && group_bars(
                            g,
                            *pol,
                            #[trigger] g.deps(v as int)[m],
                            g.owner(v as int),
                            r,
                        );
                    if m < i {
                        assert(group_bars(g, *pol, g.deps(v as int)[m], g.owner(v as int), r));
                    }
                }
            }
        }
        i += 1;
    }
}

/// Marks for removal every installed package that may be removed and that
/// a package marked for installation forbids.
pub fn clear_way(g: &PackageGraph, pol: &Policy, marks: &mut Vec<Mark>)
    requires
        g.wf(),
        marks_wf(g, old(marks)@),
    ensures
        marks_wf(g, final(marks)@),
        final(marks)@ == cleared(g, *pol, old(marks)@),
{
    let n = marks.len();
    let mut p: usize = 0;
    while p < n
        invariant
            g.wf(),
            marks_wf(g, marks@),
            n == g.npkg(),
            p <= n,
            forall|q: int|
                0 <= q < n ==> #[trigger] marks@[q] == if removable(g, *pol, old(marks)@, q) && blocked_below(
                    g,
                    *pol,
                    old(marks)@,
                    q,
                    p as int,
                ) {
                    delete_mark(old(marks)@[q], false)
                } else {
                    old(marks)@[q]
                },
        decreases n - p,
    {
        let m = marks[p];
        let ghost before = marks@;
        assert(before[p as int].selected == SelectedState::Install <==> old(marks)@[p as int].selected
            == SelectedState::Install);
        match m.selected {
            SelectedState::Install => {
                match m.candidate {
                    Some(v) => {
                        clear_version(g, pol, marks, v);
                    },
                    None => {},
                }
            },
            _ => {},
        }
        proof {
            assert forall|r: int| 0 <= r < n implies #[trigger] marks@[r] == if removable(g, *pol, old(marks)@, r)
                && blocked_below(g, *pol, old(marks)@, r, p + 1) {
                delete_mark(old(marks)@[r], false)
            } else {
                old(marks)@[r]
            } by {
                if blocked_below(g, *pol, old(marks)@, r, p + 1) {
                    let x = choose|x: int| 0 <= x < p + 1 && #[trigger] blocks(g, *pol, old(marks)@, x, r);
                    if x < p {
                        assert(blocked_below(g, *pol, old(marks)@, r, p as int));
                    }
                }
                if blocks(g, *pol, old(marks)@, p as int, r) {
                    assert(blocked_below(g, *pol, old(marks)@, r, p + 1));
                }
                if blocked_below(g, *pol, old(marks)@, r, p as int) {
                    let x = choose|x: int| 0 <= x < p && #[trigger] blocks(g, *pol, old(marks)@, x, r);
                    assert(blocks(g, *pol, old(marks)@, x, r));
                    assert(blocked_below(g, *pol, old(marks)@, r, p + 1));
                }
            }
        }
        p += 1;
    }
    assert(marks@ =~= cleared(g, *pol, old(marks)@));
}

/// Whether package `p` is to be upgraded, and to which version.
fn lift_target(g: &PackageGraph, marks: &Vec<Mark>, p: usize) -> (target: Option<usize>)
    requires
        g.wf(),
        marks_wf(g, marks@),
        p < g.npkg(),
    ensures
        target.is_some() == lifts(g, marks@, p as int),
        target matches Some(t) ==> best_version(g, p as int) == Some(t) && t < g.nver() && g.owner(t as int)
            == p && g.current(p as int).is_some(),
{
    if g.packages[p].is_held() {
        return None;
    }
    match marks[p].selected {
        SelectedState::Keep => {},
        _ => {
            return None;
        },
    }
    let best = PkgDepCache::choose_version(g, p);
    match (g.packages[p].current, best) {
        (Some(c), Some(t)) => if t < c {
            Some(t)
        } else {
            None
        },
        _ => None,
    }
}

/// Upgrades package `p` to version `t` in `marks`.
fn lift(g: &PackageGraph, pol: &Policy, marks: &mut Vec<Mark>, p: usize, t: usize, with_deps: bool)
    requires
        g.wf(),
        marks_wf(g, old(marks)@),
        p < g.npkg(),
        t < g.nver(),
        g.owner(t as int) == p,
        best_version(g, p as int) == Some(t),
        !g.packages@[p as int].held(),
        g.current(p as int).is_some(),
    ensures
        marks_wf(g, final(marks)@),
        final(marks)@ == lifted(g, *pol, old(marks)@, p as int, with_deps),
        removes_nothing(old(marks)@, final(marks)@),
        !with_deps ==> installs_nothing_new(g, old(marks)@, final(marks)@),
{
    let m = marks[p];
    marks.set(
        p,
        Mark {
            selected: SelectedState::Install,
            candidate: Some(t),
            auto_installed: m.auto_installed,
            reinstall: m.reinstall,
        },
    );
    if with_deps {
        expand(g, pol, marks, p);
    }
}

impl PkgDepCache {
    /// Tries the upgrade of each package in turn, and takes it where it
    /// leaves the plan no worse.
    fn lift_where_safe(&mut self, g: &PackageGraph, with_deps: bool)
        requires
            g.wf(),
            marks_wf(g, old(self).marks()),
            swept(g, old(self).policy(), old(self).marks(), old(self).flags()),
        ensures
            marks_wf(g, final(self).marks()),
            swept(g, final(self).policy(), final(self).marks(), final(self).flags()),
            final(self).marks() == lift_each(g, old(self).policy(), old(self).marks(), 0, with_deps),
            final(self).policy() == old(self).policy(),
            final(self).depth() == old(self).depth(),
            final(self).sweeps() == old(self).sweeps(),
            removes_nothing(old(self).marks(), final(self).marks()),
            !with_deps ==> installs_nothing_new(g, old(self).marks(), final(self).marks()),
    {
        let n = self.marks.len();
        let mut p: usize = 0;
        while p < n
            invariant
                g.wf(),
                n == g.npkg(),
                p <= n,
                marks_wf(g, self.marks()),
                swept(g, self.policy(), self.marks(), self.flags()),
                self.policy() == old(self).policy(),
                self.depth() == old(self).depth(),
                self.sweeps() == old(self).sweeps(),
                removes_nothing(old(self).marks(), self.marks()),
                !with_deps ==> installs_nothing_new(g, old(self).marks(), self.marks()),
                lift_each(g, self.policy(), self.marks(), p as int, with_deps) == lift_each(
                    g,
                    old(self).policy(),
                    old(self).marks(),
                    0,
                    with_deps,
                ),
            decreases n - p,
        {
            match lift_target(g, &self.marks, p) {
                Some(t) => {
                    let mut trial = copy_marks(&self.marks);
                    lift(g, &self.policy, &mut trial, p, t, with_deps);
                    self.commit_if_no_worse(g, trial);
                },
                None => {},
            }
            p += 1;
        }
    }

    /// Perform a full upgrade: packages are installed and removed where
    /// the upgrade needs it.
    ///
    /// Every installed package that is kept, not held, and for which the
    /// planner's choice is newer is marked for upgrade, its dependencies
    /// followed. Then every installed package that may be removed and that a
    /// package marked for installation forbids is marked for removal. At
    /// last the resolver mends what is broken. The end of each of these
    /// three stages is reported to `progress`.
    ///
    /// Fails where a package that the upgrade changed is left broken; the
    /// marks stay as the upgrade left them.
    pub fn full_upgrade(&mut self, g: &PackageGraph, progress: &mut OperationProgress) -> (result: Result<
        (),
        ResolverError,
    >)
        requires
            old(self).wf(g),
        ensures
            final(self).wf(g),
            swept(g, final(self).policy(), final(self).marks(), final(self).flags()),
            final(self).marks() == fix_marks(
                g,
                old(self).policy(),
                cleared(g, old(self).policy(), lift_all(g, old(self).policy(), old(self).marks(), 0)),
            ),
            outcome(g, old(self).policy(), old(self).marks(), final(self).marks(), result),
            final(self).policy() == old(self).policy(),
            final(self).depth() == old(self).depth(),
            final(self).sweeps() == bump(old(self).sweeps()),
            final(progress).reports@ == old(progress).reports@ + seq![30u8, 60u8, 100u8],
            final(progress).done,
    {
        let before = copy_marks(&self.marks);
        let n = self.marks.len();
        let mut p: usize = 0;
        while p < n
            invariant
                g.wf(),
                n == g.npkg(),
                p <= n,
                marks_wf(g, self.marks()),
                self.flags().len() == old(self).flags().len(),
                self.policy() == old(self).policy(),
                self.depth() == old(self).depth(),
                self.sweeps() == old(self).sweeps(),
                lift_all(g, self.policy(), self.marks(), p as int) == lift_all(
                    g,
                    old(self).policy(),
                    old(self).marks(),
                    0,
                ),
            decreases n - p,
        {
            match lift_target(g, &self.marks, p) {
                Some(t) => {
                    lift(g, &self.policy, &mut self.marks, p, t, true);
                },
                None => {},
            }
            p += 1;
        }
        progress.report(30);
        clear_way(g, &self.policy, &mut self.marks);
        progress.report(60);
        self.refresh(g);
        self.fix_swept(g);
        progress.report(100);
        assert(progress.reports@ =~= old(progress).reports@ + seq![30u8, 60u8, 100u8]);
        self.count_sweep();
        verdict(g, &self.policy, &before, self)
    }

    /// Perform a safe upgrade: nothing is removed, and no new package is
    /// installed.
    ///
    /// The upgrade of each installed package that is kept, not held, and
    /// for which the planner's choice is newer is tried in turn, without its
    /// dependencies, and taken where it leaves no more packages broken and
    /// no more packages clashing; else the package stays as it is.
    ///
    /// Fails where a package that the upgrade changed is left broken.
    pub fn safe_upgrade(&mut self, g: &PackageGraph, progress: &mut OperationProgress) -> (result: Result<
        (),
        ResolverError,
    >)
        requires
            old(self).wf(g),
        ensures
            final(self).wf(g),
            swept(g, final(self).policy(), final(self).marks(), final(self).flags()),
            final(self).marks() == lift_each(g, old(self).policy(), old(self).marks(), 0, false),
            removes_nothing(old(self).marks(), final(self).marks()),
            installs_nothing_new(g, old(self).marks(), final(self).marks()),
            outcome(g, old(self).policy(), old(self).marks(), final(self).marks(), result),
            final(self).policy() == old(self).policy(),
            final(self).depth() == old(self).depth(),
            final(self).sweeps() == bump(old(self).sweeps()),
            final(progress).reports@ == old(progress).reports@ + seq![50u8, 100u8],
            final(progress).done,
    {
        let before = copy_marks(&self.marks);
        self.resweep(g);
        progress.report(50);
        self.lift_where_safe(g, false);
        progress.report(100);
        assert(progress.reports@ =~= old(progress).reports@ + seq![50u8, 100u8]);
        verdict(g, &self.policy, &before, self)
    }

    /// Perform an upgrade that installs new packages but removes nothing.
    ///
    /// The upgrade of each installed package that is kept, not held, and
    /// for which the planner's choice is newer is tried in turn, its
    /// dependencies followed, and taken where it leaves no more packages
    /// broken and no more packages clashing; else the package stays as it
    /// is. At last the resolver mends what is broken.
    ///
    /// Fails where a package that the upgrade changed is left broken.
    pub fn install_upgrade(&mut self, g: &PackageGraph, progress: &mut OperationProgress) -> (result: Result<
        (),
        ResolverError,
    >)
        requires
            old(self).wf(g),
        ensures
            final(self).wf(g),
            swept(g, final(self).policy(), final(self).marks(), final(self).flags()),
            final(self).marks() == fix_marks(
                g,
                old(self).policy(),
                lift_each(g, old(self).policy(), old(self).marks(), 0, true),
            ),
            removes_nothing(old(self).marks(), final(self).marks()),
            outcome(g, old(self).policy(), old(self).marks(), final(self).marks(), result),
            final(self).policy() == old(self).policy(),
            final(self).depth() == old(self).depth(),
            final(self).sweeps() == bump(old(self).sweeps()),
            final(progress).reports@ == old(progress).reports@ + seq![50u8, 100u8],
            final(progress).done,
    {
        let before = copy_marks(&self.marks);
        self.refresh(g);
        self.lift_where_safe(g, true);
        progress.report(50);
        self.fix_swept(g);
        progress.report(100);
        assert(progress.reports@ =~= old(progress).reports@ + seq![50u8, 100u8]);
        self.count_sweep();
        verdict(g, &self.policy, &before, self)
    }
}

} // verus!

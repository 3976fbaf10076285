//! The resolver: mending broken packages by installing what they lack.
//!
//! Every change that the resolver makes is first tried: the marks that it
//! would give are swept, and they are taken only where they leave no more
//! packages broken and no more packages clashing than before. So a run of
//! the resolver never makes the plan worse.
use vstd::prelude::*;
use crate::depcache::{
    broken_bits, broken_total, conflict_bits, conflict_total, count_true, lemma_count_true_step,
    lemma_count_true_zero, bump, PkgDepCache,
};
use crate::graph::{base_ok, group_ok, PackageGraph};
use crate::install::{
    eligible, expand, expand_all, install_mark, only_installs, wanting,
};
use crate::package::{BaseDep, Dependency};
use crate::rules::{
    bases_hit_exec, broken, conflict_free, conflicted, marks_wf, placed, placed_exec, swept, Flags, Mark,
    Policy, SelectedState,
};
use crate::sweep::sweep;

verus! {

/// The number of passes that the resolver makes at most.
pub const MAX_PASSES: usize = 10;

/// Version `t` can be pulled in: it is eligible, and its package is not
/// marked for installation yet.
pub open spec fn pullable(g: &PackageGraph, marks: Seq<Mark>, t: usize) -> bool {
    eligible(g, marks, t) && marks[g.owner(t as int) as int].selected != SelectedState::Install
}

/// The marks after version `t` is pulled in: its package is marked for
/// installation as an automatic one, and its dependencies are followed.
pub open spec fn pulled(g: &PackageGraph, pol: Policy, marks: Seq<Mark>, t: usize) -> Seq<Mark> {
    let q = g.owner(t as int);
    expand_all(
        g,
        pol,
        marks.update(q as int, install_mark(marks[q as int], t, true)),
        seq![q],
        g.npkg() as nat,
    )
}

/// The marks `b` leave no more packages broken than the marks `a`, and no
/// more packages clashing.
pub open spec fn no_worse(g: &PackageGraph, pol: Policy, a: Seq<Mark>, b: Seq<Mark>) -> bool {
    &&& broken_total(g, pol, b) <= broken_total(g, pol, a)
    &&& conflict_total(g, b) <= conflict_total(g, a)
}

/// Whether pulling in version `t` is taken.
pub open spec fn takes(g: &PackageGraph, pol: Policy, marks: Seq<Mark>, t: usize) -> bool {
    pullable(g, marks, t) && no_worse(g, pol, marks, pulled(g, pol, marks, t))
}

/// The marks after the targets from position `k` on are tried in order
/// until one is taken, and whether one was.
pub open spec fn fix_targets(g: &PackageGraph, pol: Policy, marks: Seq<Mark>, targets: Seq<usize>, k: int) -> (
    Seq<Mark>,
    bool,
)
    decreases targets.len() - k,
{
    if k < 0 || k >= targets.len() {
        (marks, false)
    } else if takes(g, pol, marks, targets[k]) {
        (pulled(g, pol, marks, targets[k]), true)
    } else {
        fix_targets(g, pol, marks, targets, k + 1)
    }
}

/// The marks after the alternatives from position `j` on are tried in order
/// until a target of one is taken, and whether one was.
pub open spec fn fix_bases(g: &PackageGraph, pol: Policy, marks: Seq<Mark>, bases: Seq<BaseDep>, j: int) -> (
    Seq<Mark>,
    bool,
)
    decreases bases.len() - j,
{
    if j < 0 || j >= bases.len() {
        (marks, false)
    } else {
        let tried = fix_targets(g, pol, marks, bases[j]@.targets, 0);
        if tried.1 {
            tried
        } else {
            fix_bases(g, pol, marks, bases, j + 1)
        }
    }
}

/// The marks after each wanting dependency of version `v`, from position
/// `i` on, is mended where it can be, and whether any was.
pub open spec fn fix_groups(g: &PackageGraph, pol: Policy, marks: Seq<Mark>, v: int, i: int) -> (
    Seq<Mark>,
    bool,
)
    decreases g.deps(v).len() - i,
{
    if i < 0 || i >= g.deps(v).len() {
        (marks, false)
    } else if wanting(g, pol, marks, g.deps(v)[i], g.owner(v)) {
        let here = fix_bases(g, pol, marks, g.deps(v)[i].base_deps@, 0);
        let rest = fix_groups(g, pol, here.0, v, i + 1);
        (rest.0, here.1 || rest.1)
    } else {
        fix_groups(g, pol, marks, v, i + 1)
    }
}

/// The marks after one pass over the packages from `p` on, each broken one
/// mended where it can be, and whether anything changed.
pub open spec fn fix_pass(g: &PackageGraph, pol: Policy, marks: Seq<Mark>, p: int) -> (Seq<Mark>, bool)
    decreases g.npkg() - p,
{
    if p < 0 || p >= g.npkg() {
        (marks, false)
    } else {
        let here = match placed(g, marks, false, p) {
            Some(v) => if broken(g, pol, marks, false, p) {
                fix_groups(g, pol, marks, v as int, 0)
            } else {
                (marks, false)
            },
            None => (marks, false),
        };
        let rest = fix_pass(g, pol, here.0, p + 1);
        (rest.0, here.1 || rest.1)
    }
}

/// The marks after at most `rounds` passes: the passes end when one changes
/// nothing or leaves nothing broken.
pub open spec fn fix_rounds(g: &PackageGraph, pol: Policy, marks: Seq<Mark>, rounds: nat) -> Seq<Mark>
    decreases rounds,
{
    if rounds == 0 || broken_total(g, pol, marks) == 0 {
        marks
    } else {
        let pass = fix_pass(g, pol, marks, 0);
        if pass.1 {
            fix_rounds(g, pol, pass.0, (rounds - 1) as nat)
        } else {
            pass.0
        }
    }
}

/// What the resolver makes of the marks.
pub open spec fn fix_marks(g: &PackageGraph, pol: Policy, marks: Seq<Mark>) -> Seq<Mark> {
    fix_rounds(g, pol, marks, MAX_PASSES as nat)
}

/// The state `b` has come from the state `a` by steps of the resolver: the
/// flags are swept, the plan is no worse, and nothing has happened but that
/// packages were marked for installation as automatic ones.
pub open spec fn advanced(g: &PackageGraph, a: &PkgDepCache, b: &PkgDepCache) -> bool {
    &&& b.policy() == a.policy()
    &&& b.depth() == a.depth()
    &&& b.sweeps() == a.sweeps()
    &&& marks_wf(g, b.marks())
    &&& swept(g, b.policy(), b.marks(), b.flags())
    &&& no_worse(g, a.policy(), a.marks(), b.marks())
    &&& only_installs(a.marks(), b.marks())
}

/// Steps of the resolver, one after the other, are steps of the resolver.
pub proof fn lemma_advanced_trans(g: &PackageGraph, a: &PkgDepCache, b: &PkgDepCache, c: &PkgDepCache)
    requires
        advanced(g, a, b),
        advanced(g, b, c),
    ensures
        advanced(g, a, c),
{
    let x = a.marks();
    let y = b.marks();
    let z = c.marks();
    assert forall|q: int| 0 <= q < x.len() implies #[trigger] z[q] == x[q] || {
        &&& x[q].selected != SelectedState::Install
        &&& x[q].candidate matches Some(t)
        &&& z[q] == install_mark(x[q], t, true)
    } by {
        assert(y[q] == x[q] || y[q].selected == SelectedState::Install);
        assert(z[q] == y[q] || y[q].selected != SelectedState::Install);
    }
}

/// No two packages marked for installation clash exactly where none is
/// counted as clashing.
pub proof fn lemma_conflict_free_count(g: &PackageGraph, marks: Seq<Mark>)
    ensures
        conflict_free(g, marks) <==> conflict_total(g, marks) == 0,
{
    let bits = Seq::new(marks.len(), |p: int| conflicted(g, marks, p));
    lemma_count_true_zero(bits);
    if conflict_free(g, marks) {
        assert forall|i: int| 0 <= i < bits.len() implies !bits[i] by {
            assert(!conflicted(g, marks, i));
        }
    }
    if conflict_total(g, marks) == 0 {
        assert forall|p: int| 0 <= p < marks.len() implies !#[trigger] conflicted(g, marks, p) by {
            assert(!bits[p]);
        }
    }
}

/// Where no target is taken, the marks stay as they are.
pub proof fn lemma_fix_targets_idle(g: &PackageGraph, pol: Policy, marks: Seq<Mark>, targets: Seq<usize>, k: int)
    requires
        !fix_targets(g, pol, marks, targets, k).1,
    ensures
        fix_targets(g, pol, marks, targets, k).0 == marks,
    decreases targets.len() - k,
{
    if 0 <= k < targets.len() && !takes(g, pol, marks, targets[k]) {
        lemma_fix_targets_idle(g, pol, marks, targets, k + 1);
    }
}

/// A copy of the marks.
pub fn copy_marks(marks: &Vec<Mark>) -> (copy: Vec<Mark>)
    ensures
        copy@ == marks@,
{
    let mut copy: Vec<Mark> = Vec::new();
    let mut i: usize = 0;
    while i < marks.len()
        invariant
            i <= marks.len(),
            copy@ == marks@.take(i as int),
        decreases marks.len() - i,
    {
        copy.push(marks[i]);
        assert(copy@ =~= marks@.take(i + 1));
        i += 1;
    }
    assert(marks@.take(marks@.len() as int) =~= marks@);
    copy
}

/// The number of packages that the flags call broken, and the number that
/// they call clashing.
pub fn tally(flags: &Vec<Flags>) -> (counts: (usize, usize))
    ensures
        counts.0 == count_true(broken_bits(flags@)),
        counts.1 == count_true(conflict_bits(flags@)),
{
    let ghost broken = broken_bits(flags@);
    let ghost clashing = conflict_bits(flags@);
    let mut b: usize = 0;
    let mut c: usize = 0;
    let mut p: usize = 0;
    while p < flags.len()
        invariant
            broken == broken_bits(flags@),
            clashing == conflict_bits(flags@),
            p <= flags@.len(),
            b == count_true(broken.take(p as int)),
            c == count_true(clashing.take(p as int)),
            b <= p,
            c <= p,
        decreases flags.len() - p,
    {
        proof {
            lemma_count_true_step(broken, p as int);
            lemma_count_true_step(clashing, p as int);
        }
        if flags[p].inst_broken {
            b = b + 1;
        }
        if flags[p].conflicted {
            c = c + 1;
        }
        p += 1;
    }
    assert(broken.take(broken.len() as int) =~= broken);
    assert(clashing.take(clashing.len() as int) =~= clashing);
    (b, c)
}

/// What swept flags count is what follows from the marks.
pub proof fn lemma_swept_totals(g: &PackageGraph, pol: Policy, marks: Seq<Mark>, flags: Seq<Flags>)
    requires
        swept(g, pol, marks, flags),
    ensures
        count_true(broken_bits(flags)) == broken_total(g, pol, marks),
        count_true(conflict_bits(flags)) == conflict_total(g, marks),
{
    assert(broken_bits(flags) =~= Seq::new(marks.len(), |p: int| broken(g, pol, marks, false, p)));
    assert(conflict_bits(flags) =~= Seq::new(marks.len(), |p: int| conflicted(g, marks, p)));
}

impl PkgDepCache {
    /// Tries a change of the marks: `trial` is swept, and it becomes the
    /// state where it is no worse than the marks in place.
    pub(crate) fn commit_if_no_worse(&mut self, g: &PackageGraph, trial: Vec<Mark>) -> (taken: bool)
        requires
            g.wf(),
            marks_wf(g, old(self).marks()),
            swept(g, old(self).policy(), old(self).marks(), old(self).flags()),
            marks_wf(g, trial@),
        ensures
            taken == no_worse(g, old(self).policy(), old(self).marks(), trial@),
            final(self).marks() == if taken {
                trial@
            } else {
                old(self).marks()
            },
            final(self).policy() == old(self).policy(),
            final(self).depth() == old(self).depth(),
            final(self).sweeps() == old(self).sweeps(),
            marks_wf(g, final(self).marks()),
            swept(g, final(self).policy(), final(self).marks(), final(self).flags()),
    {
        let flags = sweep(g, &self.policy, &trial);
        let (b0, c0) = tally(&self.flags);
        let (b1, c1) = tally(&flags);
        proof {
            lemma_swept_totals(g, self.policy(), self.marks(), self.flags());
            lemma_swept_totals(g, self.policy(), trial@, flags@);
        }
        if b1 <= b0 && c1 <= c0 {
            self.marks = trial;
            self.flags = flags;
            true
        } else {
            false
        }
    }

    /// Tries to pull in version `t`.
    pub(crate) fn try_pull(&mut self, g: &PackageGraph, t: usize) -> (taken: bool)
        requires
            g.wf(),
            marks_wf(g, old(self).marks()),
            swept(g, old(self).policy(), old(self).marks(), old(self).flags()),
            t < g.nver(),
        ensures
            advanced(g, old(self), final(self)),
            taken == takes(g, old(self).policy(), old(self).marks(), t),
            final(self).marks() == if taken {
                pulled(g, old(self).policy(), old(self).marks(), t)
            } else {
                old(self).marks()
            },
    {
        assert(g.ver_ok(t as int));
        let q = g.versions[t].pkg;
        let m = self.marks[q];
        let chosen = match m.candidate {
            Some(c) => c == t,
            None => false,
        };
        let free = match m.selected {
            SelectedState::Install | SelectedState::DeInstall | SelectedState::Purge => false,
            _ => true,
        };
        if !(chosen && free && g.versions[t].priority >= 0 && !g.packages[q].is_held()) {
            return false;
        }
        let mut trial = copy_marks(&self.marks);
        trial.set(
            q,
            Mark {
                selected: SelectedState::Install,
                candidate: Some(t),
                auto_installed: true,
                reinstall: m.reinstall,
            },
        );
        let ghost first = trial@;
        expand(g, &self.policy, &mut trial, q);
        proof {
            assert(only_installs(self.marks(), first));
            crate::install::lemma_only_installs_chain(self.marks(), first, trial@);
        }
        self.commit_if_no_worse(g, trial)
    }

    fn try_targets(&mut self, g: &PackageGraph, b: &BaseDep) -> (taken: bool)
        requires
            g.wf(),
            marks_wf(g, old(self).marks()),
            swept(g, old(self).policy(), old(self).marks(), old(self).flags()),
            base_ok(*b, g.nver()),
        ensures
            advanced(g, old(self), final(self)),
            (final(self).marks(), taken) == fix_targets(g, old(self).policy(), old(self).marks(), b@.targets, 0),
    {
        let targets = b.all_targets();
        let mut k: usize = 0;
        while k < targets.len()
            invariant
                g.wf(),
                base_ok(*b, g.nver()),
                targets@ == b@.targets,
                k <= targets.len(),
                self.marks() == old(self).marks(),
                self.policy() == old(self).policy(),
                self.depth() == old(self).depth(),
                self.sweeps() == old(self).sweeps(),
                marks_wf(g, self.marks()),
                swept(g, self.policy(), self.marks(), self.flags()),
                fix_targets(g, self.policy(), self.marks(), targets@, k as int) == fix_targets(
                    g,
                    self.policy(),
                    self.marks(),
                    targets@,
                    0,
                ),
            decreases targets.len() - k,
        {
            let t = targets[k];
            assert(t == b@.targets[k as int]);
            if self.try_pull(g, t) {
                return true;
            }
            k += 1;
        }
        false
    }

    fn try_bases(&mut self, g: &PackageGraph, d: &Dependency) -> (taken: bool)
        requires
            g.wf(),
            marks_wf(g, old(self).marks()),
            swept(g, old(self).policy(), old(self).marks(), old(self).flags()),
            group_ok(*d, g.nver()),
        ensures
            advanced(g, old(self), final(self)),
            (final(self).marks(), taken) == fix_bases(g, old(self).policy(), old(self).marks(), d.base_deps@, 0),
    {
        let mut j: usize = 0;
        while j < d.base_deps.len()
            invariant
                g.wf(),
                group_ok(*d, g.nver()),
                j <= d.base_deps.len(),
                self.marks() == old(self).marks(),
                self.policy() == old(self).policy(),
                self.depth() == old(self).depth(),
                self.sweeps() == old(self).sweeps(),
                marks_wf(g, self.marks()),
                swept(g, self.policy(), self.marks(), self.flags()),
                fix_bases(g, self.policy(), self.marks(), d.base_deps@, j as int) == fix_bases(
                    g,
                    self.policy(),
                    self.marks(),
                    d.base_deps@,
                    0,
                ),
            decreases d.base_deps.len() - j,
        {
            if self.try_targets(g, &d.base_deps[j]) {
                return true;
            }
            proof {
                lemma_fix_targets_idle(g, old(self).policy(), old(self).marks(), d.base_deps@[j as int]@.targets, 0);
            }
            j += 1;
        }
        false
    }

    /// Mends the wanting dependencies of version `v` where that can be done.
    fn fix_version(&mut self, g: &PackageGraph, v: usize) -> (changed: bool)
        requires
            g.wf(),
            marks_wf(g, old(self).marks()),
            swept(g, old(self).policy(), old(self).marks(), old(self).flags()),
            v < g.nver(),
        ensures
            advanced(g, old(self), final(self)),
            (final(self).marks(), changed) == fix_groups(g, old(self).policy(), old(self).marks(), v as int, 0),
    {
        assert(g.ver_ok(v as int));
        let node = &g.versions[v];
        let mut changed = false;
        let mut i: usize = 0;
        while i < node.depends.len()
            invariant
                g.wf(),
                v < g.nver(),
                g.ver_ok(v as int),
                node.depends@ == g.deps(v as int),
                node.pkg == g.owner(v as int),
                i <= node.depends.len(),
                advanced(g, old(self), self),
                fix_groups(g, self.policy(), self.marks(), v as int, i as int).0 == fix_groups(
                    g,
                    self.policy(),
                    old(self).marks(),
                    v as int,
                    0,
                ).0,
                (changed || fix_groups(g, self.policy(), self.marks(), v as int, i as int).1) == fix_groups(
                    g,
                    self.policy(),
                    old(self).marks(),
                    v as int,
                    0,
                ).1,
            decreases node.depends.len() - i,
        {
            let d = &node.depends[i];
            assert(group_ok(g.deps(v as int)[i as int], g.nver()));
            if self.policy.is_important(d.dep_type) && d.dep_type.is_positive() && !bases_hit_exec(
                g,
                &self.marks,
                false,
                d,
                node.pkg,
                false,
            ) {
                let ghost mid = *self;
                let taken = self.try_bases(g, d);
                proof {
                    lemma_advanced_trans(g, old(self), &mid, self);
                }
                changed = changed || taken;
            }
            i += 1;
        }
        changed
    }

    /// One pass over the packages: each broken one is mended where that can
    /// be done.
    fn fix_all(&mut self, g: &PackageGraph) -> (changed: bool)
        requires
            g.wf(),
            marks_wf(g, old(self).marks()),
            swept(g, old(self).policy(), old(self).marks(), old(self).flags()),
        ensures
            advanced(g, old(self), final(self)),
            (final(self).marks(), changed) == fix_pass(g, old(self).policy(), old(self).marks(), 0),
    {
        let n = self.marks.len();
        let mut changed = false;
        let mut p: usize = 0;
        while p < n
            invariant
                g.wf(),
                n == g.npkg(),
                p <= n,
                advanced(g, old(self), self),
                fix_pass(g, self.policy(), self.marks(), p as int).0 == fix_pass(
                    g,
                    self.policy(),
                    old(self).marks(),
                    0,
                ).0,
                (changed || fix_pass(g, self.policy(), self.marks(), p as int).1) == fix_pass(
                    g,
                    self.policy(),
                    old(self).marks(),
                    0,
                ).1,
            decreases n - p,
        {
            if self.flags[p].inst_broken {
                match placed_exec(g, &self.marks, false, p) {
                    Some(v) => {
                        let ghost mid = *self;
                        let fixed = self.fix_version(g, v);
                        proof {
                            lemma_advanced_trans(g, old(self), &mid, self);
                        }
                        changed = changed || fixed;
                    },
                    None => {},
                }
            }
            p += 1;
        }
        changed
    }

    /// The passes of the resolver, on flags that are swept.
    pub(crate) fn fix_swept(&mut self, g: &PackageGraph) -> (ok: bool)
        requires
            g.wf(),
            marks_wf(g, old(self).marks()),
            swept(g, old(self).policy(), old(self).marks(), old(self).flags()),
        ensures
            advanced(g, old(self), final(self)),
            final(self).marks() == fix_marks(g, old(self).policy(), old(self).marks()),
            ok == (broken_total(g, final(self).policy(), final(self).marks()) == 0),
    {
        let mut rounds: usize = MAX_PASSES;
        let mut going = true;
        while going && rounds > 0
            invariant
                g.wf(),
                advanced(g, old(self), self),
                going ==> fix_rounds(g, self.policy(), self.marks(), rounds as nat) == fix_marks(
                    g,
                    old(self).policy(),
                    old(self).marks(),
                ),
                !going ==> self.marks() == fix_marks(g, old(self).policy(), old(self).marks()),
            decreases
                    if going {
                        1int
                    } else {
                        0int
                    },
                    rounds,
        {
            let (b, _) = tally(&self.flags);
            proof {
                lemma_swept_totals(g, self.policy(), self.marks(), self.flags());
            }
            if b == 0 {
                going = false;
            } else {
                let ghost mid = *self;
                let changed = self.fix_all(g);
                proof {
                    lemma_advanced_trans(g, old(self), &mid, self);
                }
                if changed {
                    rounds -= 1;
                } else {
                    going = false;
                }
            }
        }
        let (b, _) = tally(&self.flags);
        proof {
            lemma_swept_totals(g, self.policy(), self.marks(), self.flags());
        }
        b == 0
    }

    /// Mends the broken packages by installing what they lack.
    ///
    /// The flags are swept first. Then the packages are gone through in
    /// passes: for each dependency of a broken package that matters, asks
    /// for a package and is not met, the targets are tried in their order,
    /// and the first is pulled in whose marking leaves the plan no worse. The
    /// passes end when one changes nothing, when nothing is broken, or after
    /// `MAX_PASSES` of them.
    ///
    /// Returns whether no package is left broken. Never leaves more
    /// packages broken or clashing than there were.
    pub fn fix_broken(&mut self, g: &PackageGraph) -> (ok: bool)
        requires
            old(self).wf(g),
        ensures
            final(self).wf(g),
            swept(g, final(self).policy(), final(self).marks(), final(self).flags()),
            final(self).marks() == fix_marks(g, old(self).policy(), old(self).marks()),
            ok == (broken_total(g, final(self).policy(), final(self).marks()) == 0),
            broken_total(g, final(self).policy(), final(self).marks()) <= broken_total(
                g,
                old(self).policy(),
                old(self).marks(),
            ),
            conflict_total(g, final(self).marks()) <= conflict_total(g, old(self).marks()),
            conflict_free(g, old(self).marks()) ==> conflict_free(g, final(self).marks()),
            only_installs(old(self).marks(), final(self).marks()),
            final(self).policy() == old(self).policy(),
            final(self).depth() == old(self).depth(),
            final(self).sweeps() == bump(old(self).sweeps()),
    {
        self.resweep(g);
        let ok = self.fix_swept(g);
        proof {
            lemma_conflict_free_count(g, old(self).marks());
            lemma_conflict_free_count(g, self.marks());
        }
        ok
    }
}

} // verus!

//! The overlay of marks on the package graph, and what is read from it.
//!
//! The graph is never changed. What is wanted of each package is held in a
//! mark; the flags that follow from the marks are recomputed by a sweep after
//! each change, unless an action group is open: then the sweep waits until
//! the outermost group is released, and the flags are stale meanwhile.
use vstd::prelude::*;
use crate::graph::PackageGraph;
use crate::rules::{broken, conflicted, garbage, marks_wf, placed, swept, Flags, Mark, Policy, SelectedState};
use crate::sweep::sweep;

verus! {

/// Whether the planner may choose version `v` for package `p` by itself: its
/// pin does not forbid it, and it is not older than the installed version.
pub open spec fn allowed(g: &PackageGraph, p: int, v: usize) -> bool {
    &&& v < g.nver()
    &&& g.versions@[v as int].priority >= 0
    &&& match g.current(p) {
        Some(c) => v <= c,
        None => true,
    }
}

/// The best of the versions of package `p` from position `k` of its list on,
/// given the best of those before: the allowed version with the highest
/// priority, and among those of equal priority the newest.
pub open spec fn best_scan(g: &PackageGraph, p: int, k: int, best: Option<usize>) -> Option<usize>
    decreases g.packages@[p].versions@.len() - k,
{
    let list = g.packages@[p].versions@;
    if k < 0 || k >= list.len() {
        best
    } else {
        let v = list[k];
        let better = allowed(g, p, v) && match best {
            Some(b) => g.versions@[v as int].priority > g.versions@[b as int].priority,
            None => true,
        };
        best_scan(
            g,
            p,
            k + 1,
            if better {
                Some(v)
            } else {
                best
            },
        )
    }
}

/// The version that the planner chooses for package `p`.
pub open spec fn best_version(g: &PackageGraph, p: int) -> Option<usize> {
    best_scan(g, p, 0, None)
}

/// The mark of package `p` as things are on disk.
pub open spec fn initial_mark(g: &PackageGraph, p: int) -> Mark {
    Mark {
        selected: if g.current(p).is_some() {
            SelectedState::Keep
        } else {
            SelectedState::Unknown
        },
        candidate: best_version(g, p),
        auto_installed: g.packages@[p].auto_installed,
        reinstall: false,
    }
}

/// The marks as things are on disk.
pub open spec fn initial_marks(g: &PackageGraph) -> Seq<Mark> {
    Seq::new(g.npkg() as nat, |p: int| initial_mark(g, p))
}

/// The sweep counter after one more sweep; at its greatest value it stays.
pub open spec fn bump(n: u64) -> u64 {
    if n < u64::MAX {
        (n + 1) as u64
    } else {
        n
    }
}

/// The number of entries of `s` that are set.
pub open spec fn count_true(s: Seq<bool>) -> nat
    decreases s.len(),
{
    if s.len() == 0 {
        0
    } else {
        count_true(s.drop_last()) + if s.last() {
            1nat
        } else {
            0nat
        }
    }
}

/// The sum of the entries of `s`.
pub open spec fn sum(s: Seq<int>) -> int
    decreases s.len(),
{
    if s.len() == 0 {
        0
    } else {
        sum(s.drop_last()) + s.last()
    }
}

/// The package is to be removed.
pub open spec fn deleting(m: Mark) -> bool {
    m.selected == SelectedState::DeInstall || m.selected == SelectedState::Purge
}

/// The version of the package that has to be unpacked: the candidate where
/// the package is marked for installation, the installed version where it is
/// to be installed again.
pub open spec fn unpacked(m: Mark, current: Option<usize>) -> Option<usize> {
    if m.selected == SelectedState::Install {
        m.candidate
    } else if m.reinstall && !deleting(m) {
        current
    } else {
        None
    }
}

/// What package `p` adds to the download: the size of the archive to be
/// unpacked, where it can be downloaded.
pub open spec fn download_part(g: &PackageGraph, marks: Seq<Mark>, p: int) -> int {
    match unpacked(marks[p], g.current(p)) {
        Some(v) => if v < g.nver() && g.versions@[v as int].downloadable {
            g.versions@[v as int].size as int
        } else {
            0
        },
        None => 0,
    }
}

/// The unpacked size of the version, nothing for none.
pub open spec fn footprint(g: &PackageGraph, v: Option<usize>) -> int {
    match v {
        Some(i) => if i < g.nver() {
            g.versions@[i as int].installed_size as int
        } else {
            0
        },
        None => 0,
    }
}

/// What package `p` adds to the space used on disk: the size of what will be
/// in place less the size of what is in place.
pub open spec fn disk_part(g: &PackageGraph, marks: Seq<Mark>, p: int) -> int {
    footprint(g, placed(g, marks, false, p)) - footprint(g, g.current(p))
}

pub open spec fn install_bits(g: &PackageGraph, marks: Seq<Mark>) -> Seq<bool> {
    Seq::new(marks.len(), |p: int| unpacked(marks[p], g.current(p)).is_some())
}

pub open spec fn delete_bits(g: &PackageGraph, marks: Seq<Mark>) -> Seq<bool> {
    Seq::new(marks.len(), |p: int| deleting(marks[p]) && g.current(p).is_some())
}

pub open spec fn keep_bits(g: &PackageGraph, marks: Seq<Mark>) -> Seq<bool> {
    Seq::new(
        marks.len(),
        |p: int| marks[p].selected == SelectedState::Keep && g.current(p).is_some() && !marks[p].reinstall,
    )
}

pub open spec fn broken_bits(flags: Seq<Flags>) -> Seq<bool> {
    Seq::new(flags.len(), |p: int| flags[p].inst_broken)
}

pub open spec fn conflict_bits(flags: Seq<Flags>) -> Seq<bool> {
    Seq::new(flags.len(), |p: int| flags[p].conflicted)
}

pub open spec fn download_parts(g: &PackageGraph, marks: Seq<Mark>) -> Seq<int> {
    Seq::new(marks.len(), |p: int| download_part(g, marks, p))
}

pub open spec fn disk_parts(g: &PackageGraph, marks: Seq<Mark>) -> Seq<int> {
    Seq::new(marks.len(), |p: int| disk_part(g, marks, p))
}

/// The number of packages that are broken once the marks are carried out.
pub open spec fn broken_total(g: &PackageGraph, pol: Policy, marks: Seq<Mark>) -> nat {
    count_true(Seq::new(marks.len(), |p: int| broken(g, pol, marks, false, p)))
}

/// The number of packages marked for installation that clash with another.
pub open spec fn conflict_total(g: &PackageGraph, marks: Seq<Mark>) -> nat {
    count_true(Seq::new(marks.len(), |p: int| conflicted(g, marks, p)))
}

/// One more entry adds one to the count where it is set.
pub proof fn lemma_count_true_step(s: Seq<bool>, k: int)
    requires
        0 <= k < s.len(),
    ensures
        count_true(s.take(k + 1)) == count_true(s.take(k)) + if s[k] {
            1nat
        } else {
            0nat
        },
{
    assert(s.take(k + 1).drop_last() =~= s.take(k));
}

/// One more entry adds itself to the sum.
pub proof fn lemma_sum_step(s: Seq<int>, k: int)
    requires
        0 <= k < s.len(),
    ensures
        sum(s.take(k + 1)) == sum(s.take(k)) + s[k],
{
    assert(s.take(k + 1).drop_last() =~= s.take(k));
}

/// No entry is set exactly where the count is zero.
pub proof fn lemma_count_true_zero(s: Seq<bool>)
    ensures
        count_true(s) == 0 <==> (forall|i: int| 0 <= i < s.len() ==> !s[i]),
    decreases s.len(),
{
    if s.len() > 0 {
        lemma_count_true_zero(s.drop_last());
        if count_true(s) == 0 {
            assert forall|i: int| 0 <= i < s.len() implies !s[i] by {
                if i < s.len() - 1 {
                    assert(s.drop_last()[i] == s[i]);
                }
            }
        } else {
            if forall|i: int| 0 <= i < s.len() ==> !s[i] {
                assert forall|i: int| 0 <= i < s.drop_last().len() implies !s.drop_last()[i] by {
                    assert(s.drop_last()[i] == s[i]);
                }
            }
        }
    }
}

/// The mark of a package that is to stay as it is: kept where it is
/// installed, unknown where it is not.
pub open spec fn keep_mark(m: Mark, current: Option<usize>) -> Mark {
    Mark {
        selected: if current.is_some() {
            SelectedState::Keep
        } else {
            SelectedState::Unknown
        },
        ..m
    }
}

/// The mark of a package that is to be removed, with its configuration
/// files where `purge` is set.
pub open spec fn delete_mark(m: Mark, purge: bool) -> Mark {
    Mark {
        selected: if purge {
            SelectedState::Purge
        } else {
            SelectedState::DeInstall
        },
        ..m
    }
}

/// Whether package `p` may be marked for removal: an essential package only
/// where the policy allows it.
pub open spec fn may_delete(g: &PackageGraph, pol: Policy, p: int) -> bool {
    0 <= p < g.npkg() && (!g.packages@[p].essential || pol.remove_essential)
}

/// The marks after package `p` is marked to stay as it is.
pub open spec fn keep_marks(g: &PackageGraph, marks: Seq<Mark>, p: int) -> Seq<Mark> {
    if 0 <= p < marks.len() {
        marks.update(p, keep_mark(marks[p], g.current(p)))
    } else {
        marks
    }
}

/// The candidate of the package is newer than its installed version.
pub open spec fn upgradable(m: Mark, current: Option<usize>) -> bool {
    match (current, m.candidate) {
        (Some(c), Some(v)) => v < c,
        _ => false,
    }
}

/// What an operation reports of its advance. A long operation reports a
/// percentage at the end of each of its stages; the reports are kept in
/// their order, and never bear on what the operation does.
#[derive(Debug)]
pub struct OperationProgress {
    /// The percentages reported so far.
    pub reports: Vec<u8>,
    /// The last report was that of an operation that has come to its end.
    pub done: bool,
}

impl OperationProgress {
    /// Nothing has been reported.
    pub fn new() -> (progress: OperationProgress)
        ensures
            progress.reports@.len() == 0,
            !progress.done,
    {
        OperationProgress { reports: Vec::new(), done: false }
    }

    /// The percentage reported last; 0 where nothing has been reported.
    pub fn percent(&self) -> (percent: u8)
        ensures
            percent == if self.reports@.len() == 0 {
                0u8
            } else {
                self.reports@.last()
            },
    {
        if self.reports.len() == 0 {
            0
        } else {
            self.reports[self.reports.len() - 1]
        }
    }

    /// Takes a report. A report of 100 and more is that of an operation
    /// that has come to its end.
    pub fn report(&mut self, percent: u8)
        ensures
            final(self).reports@ == old(self).reports@.push(percent),
            final(self).done == (percent >= 100),
    {
        self.reports.push(percent);
        self.done = percent >= 100;
    }
}

/// The overlay: the marks, the flags, and the depth of open action groups.
#[derive(Debug)]
pub struct PkgDepCache {
    pub(crate) marks: Vec<Mark>,
    pub(crate) flags: Vec<Flags>,
    pub(crate) policy: Policy,
    pub(crate) depth: usize,
    pub(crate) sweeps: u64,
}

/// An open action group. While one is open, changes of the marks are not
/// followed by a sweep.
#[derive(Debug)]
pub struct ActionGroup {
    pub(crate) released: bool,
}

impl ActionGroup {
    /// The group has been released.
    pub open(crate) spec fn released(&self) -> bool {
        self.released
    }

    /// Releases the group. Where it was the outermost one, the flags are
    /// swept. A group that was released before is left alone, and so is a
    /// cache on which no group is open.
    pub fn release(&mut self, cache: &mut PkgDepCache, g: &PackageGraph)
        requires
            old(cache).wf(g),
        ensures
            final(cache).wf(g),
            final(self).released(),
            final(cache).marks() == old(cache).marks(),
            final(cache).policy() == old(cache).policy(),
            old(self).released() || old(cache).depth() == 0 ==> *final(cache) == *old(cache),
            !old(self).released() && old(cache).depth() > 0 ==> {
                &&& final(cache).depth() == old(cache).depth() - 1
                &&& if old(cache).depth() == 1 {
                    &&& swept(g, final(cache).policy(), final(cache).marks(), final(cache).flags())
                    &&& final(cache).sweeps() == bump(old(cache).sweeps())
                } else {
                    &&& final(cache).flags() == old(cache).flags()
                    &&& final(cache).sweeps() == old(cache).sweeps()
                }
            },
    {
        if self.released {
            return;
        }
        self.released = true;
        if cache.depth == 0 {
            return;
        }
        cache.depth = cache.depth - 1;
        if cache.depth == 0 {
            cache.resweep(g);
        }
    }
}

impl PkgDepCache {
    pub open(crate) spec fn marks(&self) -> Seq<Mark> {
        self.marks@
    }

    pub open(crate) spec fn flags(&self) -> Seq<Flags> {
        self.flags@
    }

    pub open(crate) spec fn policy(&self) -> Policy {
        self.policy
    }

    /// The number of action groups that are open.
    pub open(crate) spec fn depth(&self) -> usize {
        self.depth
    }

    /// The number of sweeps made so far.
    pub open(crate) spec fn sweeps(&self) -> u64 {
        self.sweeps
    }

    /// The overlay fits the graph, and its flags are up to date where no
    /// action group is open.
    pub open spec fn wf(&self, g: &PackageGraph) -> bool {
        &&& g.wf()
        &&& marks_wf(g, self.marks())
        &&& self.flags().len() == self.marks().len()
        &&& self.depth() == 0 ==> swept(g, self.policy(), self.marks(), self.flags())
    }

    /// The state after the marks have become `marks`: the flags are swept
    /// where no action group is open, and stay as they were where one is.
    pub open spec fn settled(&self, g: &PackageGraph, before: &PkgDepCache, marks: Seq<Mark>) -> bool {
        &&& self.marks() == marks
        &&& self.policy() == before.policy()
        &&& self.depth() == before.depth()
        &&& if before.depth() == 0 {
            &&& swept(g, self.policy(), self.marks(), self.flags())
            &&& self.sweeps() == bump(before.sweeps())
        } else {
            &&& self.flags() == before.flags()
            &&& self.sweeps() == before.sweeps()
        }
    }

    /// The version that the planner chooses for package `p`.
    pub fn choose_version(g: &PackageGraph, p: usize) -> (best: Option<usize>)
        requires
            g.wf(),
            p < g.npkg(),
        ensures
            best == best_version(g, p as int),
            best matches Some(v) ==> v < g.nver() && g.owner(v as int) == p,
    {
        assert(g.pkg_ok(p as int));
        let node = &g.packages[p];
        let mut best: Option<usize> = None;
        let mut k: usize = 0;
        while k < node.versions.len()
            invariant
                g.wf(),
                p < g.npkg(),
                g.pkg_ok(p as int),
                node.versions@ == g.packages@[p as int].versions@,
                node.current == g.current(p as int),
                k <= node.versions.len(),
                best matches Some(v) ==> v < g.nver() && g.owner(v as int) == p,
                best_scan(g, p as int, k as int, best) == best_version(g, p as int),
            decreases node.versions.len() - k,
        {
            let v = node.versions[k];
            assert(v == g.packages@[p as int].versions@[k as int]);
            let fits = g.versions[v].priority >= 0 && match node.current {
                Some(c) => v <= c,
                None => true,
            };
            let better = fits && match best {
                Some(b) => g.versions[v].priority > g.versions[b].priority,
                None => true,
            };
            if better {
                best = Some(v);
            }
            k += 1;
        }
        best
    }

    /// The overlay as things are on disk: nothing is marked, each package
    /// has the candidate that the planner chooses for it, and the flags are
    /// swept.
    pub fn new(g: &PackageGraph, policy: Policy) -> (cache: PkgDepCache)
        requires
            g.wf(),
        ensures
            cache.wf(g),
            cache.marks() == initial_marks(g),
            cache.policy() == policy,
            cache.depth() == 0,
            cache.sweeps() == 1,
    {
        let marks = Self::fresh_marks(g);
        let flags = sweep(g, &policy, &marks);
        PkgDepCache { marks, flags, policy, depth: 0, sweeps: 1 }
    }

    fn fresh_marks(g: &PackageGraph) -> (marks: Vec<Mark>)
        requires
            g.wf(),
        ensures
            marks@ == initial_marks(g),
            marks_wf(g, marks@),
    {
        let n = g.packages.len();
        let mut marks: Vec<Mark> = Vec::new();
        let mut p: usize = 0;
        while p < n
            invariant
                g.wf(),
                n == g.npkg(),
                p <= n,
                marks@.len() == p,
                forall|q: int| 0 <= q < p ==> #[trigger] marks@[q] == initial_mark(g, q),
                forall|q: int|
                    0 <= q < p ==> match (#[trigger] marks@[q]).candidate {
                        Some(c) => c < g.nver() && g.owner(c as int) == q,
                        None => marks@[q].selected != SelectedState::Install,
                    },
            decreases n - p,
        {
            let best = Self::choose_version(g, p);
            marks.push(
                Mark {
                    selected: if g.packages[p].current.is_some() {
                        SelectedState::Keep
                    } else {
                        SelectedState::Unknown
                    },
                    candidate: best,
                    auto_installed: g.packages[p].auto_installed,
                    reinstall: false,
                },
            );
            p += 1;
        }
        assert(marks@ =~= initial_marks(g));
        marks
    }

    /// Brings the overlay back to the state on disk: every mark is dropped,
    /// open action groups are forgotten, and the flags are swept. The end is
    /// reported to `progress`.
    pub fn init(&mut self, g: &PackageGraph, progress: &mut OperationProgress)
        requires
            g.wf(),
        ensures
            final(self).wf(g),
            final(self).marks() == initial_marks(g),
            final(self).policy() == old(self).policy(),
            final(self).depth() == 0,
            final(self).sweeps() == bump(old(self).sweeps()),
            final(progress).reports@ == old(progress).reports@.push(100u8),
            final(progress).done,
    {
        self.marks = Self::fresh_marks(g);
        self.depth = 0;
        self.resweep(g);
        progress.report(100);
    }

    /// Sweeps the flags, whatever the depth of open action groups.
    pub(crate) fn resweep(&mut self, g: &PackageGraph)
        requires
            g.wf(),
            marks_wf(g, old(self).marks()),
        ensures
            final(self).marks() == old(self).marks(),
            final(self).policy() == old(self).policy(),
            final(self).depth() == old(self).depth(),
            final(self).sweeps() == bump(old(self).sweeps()),
            swept(g, final(self).policy(), final(self).marks(), final(self).flags()),
            final(self).wf(g),
    {
        self.refresh(g);
        self.count_sweep();
    }

    /// Brings the flags up to date without counting a sweep.
    pub(crate) fn refresh(&mut self, g: &PackageGraph)
        requires
            g.wf(),
            marks_wf(g, old(self).marks()),
        ensures
            final(self).marks() == old(self).marks(),
            final(self).policy() == old(self).policy(),
            final(self).depth() == old(self).depth(),
            final(self).sweeps() == old(self).sweeps(),
            swept(g, final(self).policy(), final(self).marks(), final(self).flags()),
    {
        self.flags = sweep(g, &self.policy, &self.marks);
    }

    /// Counts one sweep.
    pub(crate) fn count_sweep(&mut self)
        ensures
            final(self).marks() == old(self).marks(),
            final(self).flags() == old(self).flags(),
            final(self).policy() == old(self).policy(),
            final(self).depth() == old(self).depth(),
            final(self).sweeps() == bump(old(self).sweeps()),
    {
        if self.sweeps < u64::MAX {
            self.sweeps = self.sweeps + 1;
        }
    }

    /// Sweeps the flags unless an action group is open.
    pub(crate) fn settle(&mut self, g: &PackageGraph)
        requires
            g.wf(),
            marks_wf(g, old(self).marks()),
            old(self).flags().len() == old(self).marks().len(),
        ensures
            final(self).wf(g),
            final(self).settled(g, old(self), old(self).marks()),
    {
        if self.depth == 0 {
            self.resweep(g);
        }
    }

    /// Mark a package for keep: it stays at its installed version, or stays
    /// away where it is not installed. Returns whether `p` is a package.
    pub fn mark_keep(&mut self, g: &PackageGraph, p: usize) -> (done: bool)
        requires
            old(self).wf(g),
        ensures
            final(self).wf(g),
            done == (p < g.npkg()),
            done ==> final(self).settled(g, old(self), keep_marks(g, old(self).marks(), p as int)),
            !done ==> *final(self) == *old(self),
    {
        if p >= self.marks.len() {
            return false;
        }
        assert(g.pkg_ok(p as int));
        let m = self.marks[p];
        let selected = if g.packages[p].current.is_some() {
            SelectedState::Keep
        } else {
            SelectedState::Unknown
        };
        self.marks.set(
            p,
            Mark { selected, candidate: m.candidate, auto_installed: m.auto_installed, reinstall: m.reinstall },
        );
        self.settle(g);
        true
    }

    /// Mark a package for removal, with its configuration files where
    /// `purge` is set. An essential package is refused unless the policy
    /// allows its removal: then nothing changes and `false` is returned.
    pub fn mark_delete(&mut self, g: &PackageGraph, p: usize, purge: bool) -> (done: bool)
        requires
            old(self).wf(g),
        ensures
            final(self).wf(g),
            done == may_delete(g, old(self).policy(), p as int),
            done ==> final(self).settled(
                g,
                old(self),
                old(self).marks().update(p as int, delete_mark(old(self).marks()[p as int], purge)),
            ),
            !done ==> *final(self) == *old(self),
    {
        if p >= self.marks.len() {
            return false;
        }
        if g.packages[p].essential && !self.policy.remove_essential {
            return false;
        }
        let m = self.marks[p];
        let selected = if purge {
            SelectedState::Purge
        } else {
            SelectedState::DeInstall
        };
        self.marks.set(
            p,
            Mark { selected, candidate: m.candidate, auto_installed: m.auto_installed, reinstall: m.reinstall },
        );
        self.settle(g);
        true
    }

    /// Mark a package as automatically installed (`flag` set) or as
    /// installed by hand. A `p` that is no package changes nothing.
    pub fn mark_auto(&mut self, g: &PackageGraph, p: usize, flag: bool)
        requires
            old(self).wf(g),
        ensures
            final(self).wf(g),
            p < g.npkg() ==> final(self).settled(
                g,
                old(self),
                old(self).marks().update(
                    p as int,
                    Mark { auto_installed: flag, ..old(self).marks()[p as int] },
                ),
            ),
            p >= g.npkg() ==> *final(self) == *old(self),
    {
        if p >= self.marks.len() {
            return;
        }
        let m = self.marks[p];
        self.marks.set(
            p,
            Mark { selected: m.selected, candidate: m.candidate, auto_installed: flag, reinstall: m.reinstall },
        );
        self.settle(g);
    }

    /// Mark an installed package to be installed again (`flag` set), or take
    /// that mark back. A package that is not installed keeps its mark.
    pub fn mark_reinstall(&mut self, g: &PackageGraph, p: usize, flag: bool)
        requires
            old(self).wf(g),
        ensures
            final(self).wf(g),
            p < g.npkg() && g.current(p as int).is_some() ==> final(self).settled(
                g,
                old(self),
                old(self).marks().update(p as int, Mark { reinstall: flag, ..old(self).marks()[p as int] }),
            ),
            !(p < g.npkg() && g.current(p as int).is_some()) ==> *final(self) == *old(self),
    {
        if p >= self.marks.len() {
            return;
        }
        if g.packages[p].current.is_none() {
            return;
        }
        let m = self.marks[p];
        self.marks.set(
            p,
            Mark {
                selected: m.selected,
                candidate: m.candidate,
                auto_installed: m.auto_installed,
                reinstall: flag,
            },
        );
        self.settle(g);
    }

    /// Set a version to be the candidate of its package. The package is not
    /// marked by this. A `ver` that is no version changes nothing.
    pub fn set_candidate_version(&mut self, g: &PackageGraph, ver: usize)
        requires
            old(self).wf(g),
        ensures
            final(self).wf(g),
            ver < g.nver() ==> final(self).settled(
                g,
                old(self),
                old(self).marks().update(
                    g.owner(ver as int) as int,
                    Mark { candidate: Some(ver), ..old(self).marks()[g.owner(ver as int) as int] },
                ),
            ),
            ver >= g.nver() ==> *final(self) == *old(self),
    {
        if ver >= g.versions.len() {
            return;
        }
        assert(g.ver_ok(ver as int));
        let p = g.versions[ver].pkg;
        let m = self.marks[p];
        self.marks.set(
            p,
            Mark {
                selected: m.selected,
                candidate: Some(ver),
                auto_installed: m.auto_installed,
                reinstall: m.reinstall,
            },
        );
        self.settle(g);
    }

    /// The version that an installation of package `p` would put in place.
    pub fn candidate_version(&self, g: &PackageGraph, p: usize) -> (v: Option<usize>)
        requires
            self.wf(g),
        ensures
            v == if p < g.npkg() {
                self.marks()[p as int].candidate
            } else {
                None
            },
            v matches Some(i) ==> i < g.nver() && g.owner(i as int) == p,
    {
        if p >= self.marks.len() {
            return None;
        }
        self.marks[p].candidate
    }

    /// The version of package `p` that is in place once the marks are
    /// carried out: none where the package is removed or stays away.
    pub fn install_version(&self, g: &PackageGraph, p: usize) -> (v: Option<usize>)
        requires
            self.wf(g),
        ensures
            v == if p < g.npkg() {
                placed(g, self.marks(), false, p as int)
            } else {
                None
            },
    {
        if p >= self.marks.len() {
            return None;
        }
        crate::rules::placed_exec(g, &self.marks, false, p)
    }

    /// Check if the package is upgradable: it is installed, and its
    /// candidate is newer than the installed version.
    pub fn is_upgradable(&self, g: &PackageGraph, p: usize) -> (yes: bool)
        requires
            self.wf(g),
        ensures
            yes == (p < g.npkg() && upgradable(self.marks()[p as int], g.current(p as int))),
    {
        if p >= self.marks.len() {
            return false;
        }
        match (g.packages[p].current, self.marks[p].candidate) {
            (Some(c), Some(v)) => v < c,
            _ => false,
        }
    }

    /// Is the package auto installed? Such packages are usually
    /// dependencies.
    pub fn is_auto_installed(&self, g: &PackageGraph, p: usize) -> (yes: bool)
        requires
            self.wf(g),
        ensures
            yes == (p < g.npkg() && self.marks()[p as int].auto_installed),
    {
        p < self.marks.len() && self.marks[p].auto_installed
    }

    /// Is the package garbage: installed for the sake of others, and kept
    /// alive by nothing that is wanted? This reads the flag of the last
    /// sweep.
    pub fn is_garbage(&self, g: &PackageGraph, p: usize) -> (yes: bool)
        requires
            self.wf(g),
        ensures
            yes == (p < g.npkg() && self.flags()[p as int].garbage),
            self.depth() == 0 && p < g.npkg() ==> yes == garbage(g, self.policy(), self.marks(), p as int),
    {
        p < self.flags.len() && self.flags[p].garbage
    }

    /// Is the installed package broken? This reads the flag of the last
    /// sweep.
    pub fn is_now_broken(&self, g: &PackageGraph, p: usize) -> (yes: bool)
        requires
            self.wf(g),
        ensures
            yes == (p < g.npkg() && self.flags()[p as int].now_broken),
            self.depth() == 0 && p < g.npkg() ==> yes == broken(g, self.policy(), self.marks(), true, p as int),
    {
        p < self.flags.len() && self.flags[p].now_broken
    }

    /// Is the package broken once the marks are carried out? This reads the
    /// flag of the last sweep.
    pub fn is_inst_broken(&self, g: &PackageGraph, p: usize) -> (yes: bool)
        requires
            self.wf(g),
        ensures
            yes == (p < g.npkg() && self.flags()[p as int].inst_broken),
            self.depth() == 0 && p < g.npkg() ==> yes == broken(
                g,
                self.policy(),
                self.marks(),
                false,
                p as int,
            ),
    {
        p < self.flags.len() && self.flags[p].inst_broken
    }

    /// Is the package marked for a fresh installation?
    pub fn marked_install(&self, g: &PackageGraph, p: usize) -> (yes: bool)
        requires
            self.wf(g),
        ensures
            yes == (p < g.npkg() && self.marks()[p as int].selected == SelectedState::Install && g.current(
                p as int,
            ).is_none()),
    {
        if p >= self.marks.len() {
            return false;
        }
        match self.marks[p].selected {
            SelectedState::Install => g.packages[p].current.is_none(),
            _ => false,
        }
    }

    /// Is the package marked for upgrade: for installation at a version
    /// newer than the installed one?
    pub fn marked_upgrade(&self, g: &PackageGraph, p: usize) -> (yes: bool)
        requires
            self.wf(g),
        ensures
            yes == (p < g.npkg() && self.marks()[p as int].selected == SelectedState::Install && upgradable(
                self.marks()[p as int],
                g.current(p as int),
            )),
    {
        if p >= self.marks.len() {
            return false;
        }
        match self.marks[p].selected {
            SelectedState::Install => self.is_upgradable(g, p),
            _ => false,
        }
    }

    /// Is the package marked for downgrade: for installation at a version
    /// older than the installed one?
    pub fn marked_downgrade(&self, g: &PackageGraph, p: usize) -> (yes: bool)
        requires
            self.wf(g),
        ensures
            yes == (p < g.npkg() && self.marks()[p as int].selected == SelectedState::Install && match (
                g.current(p as int),
                self.marks()[p as int].candidate,
            ) {
                (Some(c), Some(v)) => v > c,
                _ => false,
            }),
    {
        if p >= self.marks.len() {
            return false;
        }
        match self.marks[p].selected {
            SelectedState::Install => match (g.packages[p].current, self.marks[p].candidate) {
                (Some(c), Some(v)) => v > c,
                _ => false,
            },
            _ => false,
        }
    }

    /// Is the package marked for removal?
    pub fn marked_delete(&self, g: &PackageGraph, p: usize) -> (yes: bool)
        requires
            self.wf(g),
        ensures
            yes == (p < g.npkg() && deleting(self.marks()[p as int])),
    {
        if p >= self.marks.len() {
            return false;
        }
        match self.marks[p].selected {
            SelectedState::DeInstall | SelectedState::Purge => true,
            _ => false,
        }
    }

    /// Is the package marked to be purged?
    pub fn marked_purge(&self, g: &PackageGraph, p: usize) -> (yes: bool)
        requires
            self.wf(g),
        ensures
            yes == (p < g.npkg() && self.marks()[p as int].selected == SelectedState::Purge),
    {
        if p >= self.marks.len() {
            return false;
        }
        match self.marks[p].selected {
            SelectedState::Purge => true,
            _ => false,
        }
    }

    /// Is the package marked for keep: neither for installation nor for
    /// removal?
    pub fn marked_keep(&self, g: &PackageGraph, p: usize) -> (yes: bool)
        requires
            self.wf(g),
        ensures
            yes == (p < g.npkg() && (self.marks()[p as int].selected == SelectedState::Keep
                || self.marks()[p as int].selected == SelectedState::Unknown)),
    {
        if p >= self.marks.len() {
            return false;
        }
        match self.marks[p].selected {
            SelectedState::Keep | SelectedState::Unknown => true,
            _ => false,
        }
    }

    /// Is the package marked to be installed again?
    pub fn marked_reinstall(&self, g: &PackageGraph, p: usize) -> (yes: bool)
        requires
            self.wf(g),
        ensures
            yes == (p < g.npkg() && self.marks()[p as int].reinstall && !deleting(self.marks()[p as int])
                && g.current(p as int).is_some()),
    {
        if p >= self.marks.len() {
            return false;
        }
        let m = self.marks[p];
        let going = match m.selected {
            SelectedState::DeInstall | SelectedState::Purge => true,
            _ => false,
        };
        m.reinstall && !going && g.packages[p].current.is_some()
    }

    /// The selected state of package `p`.
    pub fn selected_state(&self, g: &PackageGraph, p: usize) -> (state: SelectedState)
        requires
            self.wf(g),
        ensures
            state == if p < g.npkg() {
                self.marks()[p as int].selected
            } else {
                SelectedState::Unknown
            },
    {
        if p >= self.marks.len() {
            return SelectedState::Unknown;
        }
        self.marks[p].selected
    }

    /// The number of packages marked for installation: fresh ones,
    /// upgrades, downgrades, and those to be installed again.
    pub fn install_count(&self, g: &PackageGraph) -> (n: u32)
        requires
            self.wf(g),
        ensures
            n == count_true(install_bits(g, self.marks())),
    {
        let ghost bits = install_bits(g, self.marks());
        let mut n: u32 = 0;
        let mut p: usize = 0;
        while p < self.marks.len()
            invariant
                self.wf(g),
                bits == install_bits(g, self.marks()),
                p <= self.marks@.len(),
                n == count_true(bits.take(p as int)),
                n <= p,
            decreases self.marks.len() - p,
        {
            proof {
                lemma_count_true_step(bits, p as int);
            }
            let m = self.marks[p];
            let going = match m.selected {
                SelectedState::DeInstall | SelectedState::Purge => true,
                _ => false,
            };
            let counts = match m.selected {
                SelectedState::Install => m.candidate.is_some(),
                _ => m.reinstall && !going && g.packages[p].current.is_some(),
            };
            if counts {
                n = n + 1;
            }
            p += 1;
        }
        assert(bits.take(bits.len() as int) =~= bits);
        n
    }

    /// The number of installed packages marked for removal.
    pub fn delete_count(&self, g: &PackageGraph) -> (n: u32)
        requires
            self.wf(g),
        ensures
            n == count_true(delete_bits(g, self.marks())),
    {
        let ghost bits = delete_bits(g, self.marks());
        let mut n: u32 = 0;
        let mut p: usize = 0;
        while p < self.marks.len()
            invariant
                self.wf(g),
                bits == delete_bits(g, self.marks()),
                p <= self.marks@.len(),
                n == count_true(bits.take(p as int)),
                n <= p,
            decreases self.marks.len() - p,
        {
            proof {
                lemma_count_true_step(bits, p as int);
            }
            let going = match self.marks[p].selected {
                SelectedState::DeInstall | SelectedState::Purge => true,
                _ => false,
            };
            if going && g.packages[p].current.is_some() {
                n = n + 1;
            }
            p += 1;
        }
        assert(bits.take(bits.len() as int) =~= bits);
        n
    }

    /// The number of installed packages that stay as they are.
    pub fn keep_count(&self, g: &PackageGraph) -> (n: u32)
        requires
            self.wf(g),
        ensures
            n == count_true(keep_bits(g, self.marks())),
    {
        let ghost bits = keep_bits(g, self.marks());
        let mut n: u32 = 0;
        let mut p: usize = 0;
        while p < self.marks.len()
            invariant
                self.wf(g),
                bits == keep_bits(g, self.marks()),
                p <= self.marks@.len(),
                n == count_true(bits.take(p as int)),
                n <= p,
            decreases self.marks.len() - p,
        {
            proof {
                lemma_count_true_step(bits, p as int);
            }
            let m = self.marks[p];
            let kept = match m.selected {
                SelectedState::Keep => g.packages[p].current.is_some() && !m.reinstall,
                _ => false,
            };
            if kept {
                n = n + 1;
            }
            p += 1;
        }
        assert(bits.take(bits.len() as int) =~= bits);
        n
    }

    /// The number of packages that the last sweep found broken. Where no
    /// action group is open, that is the number of packages that are broken
    /// once the marks are carried out.
    pub fn broken_count(&self, g: &PackageGraph) -> (n: u32)
        requires
            self.wf(g),
        ensures
            n == count_true(broken_bits(self.flags())),
            swept(g, self.policy(), self.marks(), self.flags()) ==> n == broken_total(
                g,
                self.policy(),
                self.marks(),
            ),
    {
        let ghost bits = broken_bits(self.flags());
        let mut n: u32 = 0;
        let mut p: usize = 0;
        while p < self.flags.len()
            invariant
                self.wf(g),
                bits == broken_bits(self.flags()),
                p <= self.flags@.len(),
                n == count_true(bits.take(p as int)),
                n <= p,
            decreases self.flags.len() - p,
        {
            proof {
                lemma_count_true_step(bits, p as int);
            }
            if self.flags[p].inst_broken {
                n = n + 1;
            }
            p += 1;
        }
        assert(bits.take(bits.len() as int) =~= bits);
        proof {
            if swept(g, self.policy(), self.marks(), self.flags()) {
                assert(bits =~= Seq::new(
                    self.marks().len(),
                    |p: int| broken(g, self.policy(), self.marks(), false, p),
                ));
            }
        }
        n
    }

    /// The number of packages marked for installation that the last sweep
    /// found to clash with another such package.
    pub fn conflict_count(&self, g: &PackageGraph) -> (n: u32)
        requires
            self.wf(g),
        ensures
            n == count_true(conflict_bits(self.flags())),
            swept(g, self.policy(), self.marks(), self.flags()) ==> n == conflict_total(g, self.marks()),
    {
        let ghost bits = conflict_bits(self.flags());
        let mut n: u32 = 0;
        let mut p: usize = 0;
        while p < self.flags.len()
            invariant
                self.wf(g),
                bits == conflict_bits(self.flags()),
                p <= self.flags@.len(),
                n == count_true(bits.take(p as int)),
                n <= p,
            decreases self.flags.len() - p,
        {
            proof {
                lemma_count_true_step(bits, p as int);
            }
            if self.flags[p].conflicted {
                n = n + 1;
            }
            p += 1;
        }
        assert(bits.take(bits.len() as int) =~= bits);
        proof {
            if swept(g, self.policy(), self.marks(), self.flags()) {
                assert(bits =~= Seq::new(self.marks().len(), |p: int| conflicted(g, self.marks(), p)));
            }
        }
        n
    }

    /// The size of all archives to be downloaded, held to the range of
    /// `u64`.
    pub fn download_size(&self, g: &PackageGraph) -> (size: u64)
        requires
            self.wf(g),
        ensures
            size == if sum(download_parts(g, self.marks())) > u64::MAX {
                u64::MAX as int
            } else {
                sum(download_parts(g, self.marks()))
            },
    {
        let ghost parts = download_parts(g, self.marks());
        let mut acc: u128 = 0;
        let mut p: usize = 0;
        while p < self.marks.len()
            invariant
                self.wf(g),
                parts == download_parts(g, self.marks()),
                p <= self.marks@.len(),
                acc == sum(parts.take(p as int)),
                acc <= p * 0xffff_ffff_ffff_ffff,
            decreases self.marks.len() - p,
        {
            proof {
                lemma_sum_step(parts, p as int);
            }
            let m = self.marks[p];
            let going = match m.selected {
                SelectedState::DeInstall | SelectedState::Purge => true,
                _ => false,
            };
            let what = match m.selected {
                SelectedState::Install => m.candidate,
                _ => if m.reinstall && !going {
                    g.packages[p].current
                } else {
                    None
                },
            };
            match what {
                Some(v) => {
                    if v < g.versions.len() && g.versions[v].downloadable {
                        acc = acc + g.versions[v].size as u128;
                    }
                },
                None => {},
            }
            p += 1;
        }
        assert(parts.take(parts.len() as int) =~= parts);
        if acc > 0xffff_ffff_ffff_ffff {
            0xffff_ffff_ffff_ffff
        } else {
            acc as u64
        }
    }

    /// The space that carrying out the marks takes on disk: the unpacked
    /// size of what is installed less that of what is removed, held to the
    /// range of `i64`. A negative size means that space is freed.
    pub fn disk_size(&self, g: &PackageGraph) -> (size: i64)
        requires
            self.wf(g),
        ensures
            size == if sum(disk_parts(g, self.marks())) > i64::MAX {
                i64::MAX as int
            } else if sum(disk_parts(g, self.marks())) < i64::MIN {
                i64::MIN as int
            } else {
                sum(disk_parts(g, self.marks()))
            },
    {
        let ghost parts = disk_parts(g, self.marks());
        let mut acc: i128 = 0;
        let mut p: usize = 0;
        while p < self.marks.len()
            invariant
                self.wf(g),
                parts == disk_parts(g, self.marks()),
                p <= self.marks@.len(),
                acc == sum(parts.take(p as int)),
                -(p * 0xffff_ffff_ffff_ffff) <= acc <= p * 0xffff_ffff_ffff_ffff,
            decreases self.marks.len() - p,
        {
            proof {
                lemma_sum_step(parts, p as int);
            }
            let after = match crate::rules::placed_exec(g, &self.marks, false, p) {
                Some(v) => g.versions[v].installed_size as i128,
                None => 0,
            };
            assert(g.pkg_ok(p as int));
            let before = match g.packages[p].current {
                Some(v) => g.versions[v].installed_size as i128,
                None => 0,
            };
            acc = acc + (after - before);
            p += 1;
        }
        assert(parts.take(parts.len() as int) =~= parts);
        if acc > 0x7fff_ffff_ffff_ffff {
            0x7fff_ffff_ffff_ffff
        } else if acc < -0x8000_0000_0000_0000 {
            -0x8000_0000_0000_0000
        } else {
            acc as i64
        }
    }

    /// The number of sweeps made on this overlay.
    pub fn sweep_count(&self) -> (n: u64)
        ensures
            n == self.sweeps(),
    {
        self.sweeps
    }

    /// The number of action groups that are open.
    pub fn open_groups(&self) -> (n: usize)
        ensures
            n == self.depth(),
    {
        self.depth
    }

    /// Opens an action group: until it is released, changes of the marks
    /// are not followed by a sweep. Groups may be nested.
    pub fn action_group(&mut self) -> (group: ActionGroup)
        ensures
            final(self).marks() == old(self).marks(),
            final(self).flags() == old(self).flags(),
            final(self).policy() == old(self).policy(),
            final(self).sweeps() == old(self).sweeps(),
            if old(self).depth() < usize::MAX {
                final(self).depth() == old(self).depth() + 1 && !group.released()
            } else {
                final(self).depth() == old(self).depth() && group.released()
            },
    {
        if self.depth < usize::MAX {
            self.depth = self.depth + 1;
            ActionGroup { released: false }
        } else {
            ActionGroup { released: true }
        }
    }
}

} // verus!

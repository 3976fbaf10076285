//! What the marks on the packages mean: which version of a package will be
//! in place, when a dependency is met, when a package is broken, and which
//! packages the wanted ones keep alive.
use vstd::prelude::*;
use crate::graph::PackageGraph;
use crate::package::{BaseDep, DepType, Dependency};

verus! {

/// What is wanted of a package.
#[derive(Clone, Copy, Debug, PartialEq, Eq, Structural)]
pub enum SelectedState {
    Unknown,
    Install,
    DeInstall,
    Purge,
    Keep,
}

/// The decisions taken on one package.
#[derive(Clone, Copy, Debug)]
pub struct Mark {
    pub selected: SelectedState,
    /// The version that an installation would put in place.
    pub candidate: Option<usize>,
    pub auto_installed: bool,
    pub reinstall: bool,
}

/// What follows from the marks for one package. The flags are brought up to
/// date by a sweep, and are stale between a change of the marks and the next
/// sweep.
#[derive(Clone, Copy, Debug)]
pub struct Flags {
    pub now_broken: bool,
    pub inst_broken: bool,
    pub garbage: bool,
    pub conflicted: bool,
}

/// The choices that are made once for a whole plan.
#[derive(Clone, Copy, Debug)]
pub struct Policy {
    /// Recommended packages count as needed.
    pub install_recommends: bool,
    /// Suggested packages count as needed.
    pub install_suggests: bool,
    /// Essential packages may be marked for removal.
    pub remove_essential: bool,
}

impl Policy {
    /// A relation whose violation breaks a package.
    pub open spec fn important(self, kind: DepType) -> bool {
        match kind {
            DepType::Depends | DepType::PreDepends | DepType::Conflicts | DepType::Breaks
            | DepType::Obsoletes => true,
            DepType::Recommends => self.install_recommends,
            DepType::Suggests => self.install_suggests,
            _ => false,
        }
    }

    /// Whether the violation of a relation of this kind breaks a package.
    pub fn is_important(&self, kind: DepType) -> (yes: bool)
        ensures
            yes == self.important(kind),
    {
        match kind {
            DepType::Depends | DepType::PreDepends | DepType::Conflicts | DepType::Breaks
            | DepType::Obsoletes => true,
            DepType::Recommends => self.install_recommends,
            DepType::Suggests => self.install_suggests,
            _ => false,
        }
    }
}

/// The version that is in place once the mark is carried out, for a package
/// whose installed version is `current`.
pub open spec fn install_ver(m: Mark, current: Option<usize>) -> Option<usize> {
    match m.selected {
        SelectedState::Install => m.candidate,
        SelectedState::DeInstall | SelectedState::Purge => None,
        _ => current,
    }
}

/// The marks fit the graph: one for each package, a candidate is a version
/// of its package, a package marked for installation has a candidate, and
/// a package that is held back is not marked for installation.
pub open spec fn marks_wf(g: &PackageGraph, marks: Seq<Mark>) -> bool {
    &&& marks.len() == g.npkg()
    &&& forall|p: int|
        0 <= p < marks.len() ==> {
            &&& match (#[trigger] marks[p]).candidate {
                Some(c) => c < g.nver() && g.owner(c as int) == p,
                None => marks[p].selected != SelectedState::Install,
            }
            &&& g.packages@[p].held() ==> marks[p].selected != SelectedState::Install
        }
}

/// The version of package `p` that is in place: as things are on disk where
/// `now` is set, else once the marks are carried out.
pub open spec fn placed(g: &PackageGraph, marks: Seq<Mark>, now: bool, p: int) -> Option<usize> {
    if now {
        g.current(p)
    } else {
        install_ver(marks[p], g.current(p))
    }
}

/// Version `t` is in place.
pub open spec fn live(g: &PackageGraph, marks: Seq<Mark>, now: bool, t: usize) -> bool {
    t < g.nver() && placed(g, marks, now, g.owner(t as int) as int) == Some(t)
}

/// Version `t` is in place and counts for a dependency of package `owner`:
/// where `foreign` is set, a version of `owner` itself does not count.
pub open spec fn hit(g: &PackageGraph, marks: Seq<Mark>, now: bool, t: usize, owner: usize, foreign: bool) -> bool {
    live(g, marks, now, t) && (foreign ==> g.owner(t as int) != owner)
}

/// One of `targets` counts.
pub open spec fn targets_hit(
    g: &PackageGraph,
    marks: Seq<Mark>,
    now: bool,
    targets: Seq<usize>,
    owner: usize,
    foreign: bool,
) -> bool {
    exists|k: int| 0 <= k < targets.len() && hit(g, marks, now, #[trigger] targets[k], owner, foreign)
}

/// One of the alternatives `bases` has a target that counts.
pub open spec fn bases_hit(
    g: &PackageGraph,
    marks: Seq<Mark>,
    now: bool,
    bases: Seq<BaseDep>,
    owner: usize,
    foreign: bool,
) -> bool {
    exists|j: int|
        0 <= j < bases.len() && targets_hit(g, marks, now, (#[trigger] bases[j])@.targets, owner, foreign)
}

/// The dependency `d` of a version of package `owner` is met: a relation
/// that asks for a package has a target in place, one that forbids a package
/// has none in place but of `owner` itself, and one that does not matter is
/// always met.
pub open spec fn group_met(
    g: &PackageGraph,
    pol: Policy,
    marks: Seq<Mark>,
    now: bool,
    d: Dependency,
    owner: usize,
) -> bool {
    if !pol.important(d.dep_type) {
        true
    } else if d.dep_type.negative() {
        !bases_hit(g, marks, now, d.base_deps@, owner, true)
    } else {
        bases_hit(g, marks, now, d.base_deps@, owner, false)
    }
}

/// Every dependency of version `v` is met.
pub open spec fn version_met(g: &PackageGraph, pol: Policy, marks: Seq<Mark>, now: bool, v: int) -> bool {
    forall|i: int|
        0 <= i < g.deps(v).len() ==> group_met(g, pol, marks, now, #[trigger] g.deps(v)[i], g.owner(v))
}

/// Package `p` has a version in place of which some dependency that matters
/// is not met.
pub open spec fn broken(g: &PackageGraph, pol: Policy, marks: Seq<Mark>, now: bool, p: int) -> bool {
    match placed(g, marks, now, p) {
        Some(v) => !version_met(g, pol, marks, now, v as int),
        None => false,
    }
}

/// Package `p` is marked for installation, `t` is in place and belongs to
/// another package that is marked for installation too.
pub open spec fn rival(g: &PackageGraph, marks: Seq<Mark>, t: usize, p: usize) -> bool {
    &&& hit(g, marks, false, t, p, true)
    &&& marks[g.owner(t as int) as int].selected == SelectedState::Install
}

pub open spec fn targets_rival(g: &PackageGraph, marks: Seq<Mark>, targets: Seq<usize>, p: usize) -> bool {
    exists|k: int| 0 <= k < targets.len() && rival(g, marks, #[trigger] targets[k], p)
}

pub open spec fn bases_rival(g: &PackageGraph, marks: Seq<Mark>, bases: Seq<BaseDep>, p: usize) -> bool {
    exists|j: int| 0 <= j < bases.len() && targets_rival(g, marks, (#[trigger] bases[j])@.targets, p)
}

/// Version `v` of package `p` states a conflict or a break against the
/// version chosen for another package that is marked for installation.
pub open spec fn version_clashes(g: &PackageGraph, marks: Seq<Mark>, v: int, p: usize) -> bool {
    exists|i: int|
        0 <= i < g.deps(v).len() && (#[trigger] g.deps(v)[i]).dep_type.clashing() && bases_rival(
            g,
            marks,
            g.deps(v)[i].base_deps@,
            p,
        )
}

/// Package `p` is marked for installation, and the version chosen for it
/// states a conflict or a break against the version chosen for another
/// package that is marked for installation.
pub open spec fn conflicted(g: &PackageGraph, marks: Seq<Mark>, p: int) -> bool {
    marks[p].selected == SelectedState::Install && match marks[p].candidate {
        Some(v) => version_clashes(g, marks, v as int, p as usize),
        None => false,
    }
}

/// No two packages that are marked for installation clash.
pub open spec fn conflict_free(g: &PackageGraph, marks: Seq<Mark>) -> bool {
    forall|p: int| 0 <= p < marks.len() ==> !#[trigger] conflicted(g, marks, p)
}

/// A package that is wanted for its own sake: it will be in place, and it was
/// installed by hand or is essential.
pub open spec fn root(g: &PackageGraph, marks: Seq<Mark>, p: int) -> bool {
    &&& 0 <= p < marks.len()
    &&& placed(g, marks, false, p).is_some()
    &&& (!marks[p].auto_installed || g.packages@[p].essential)
}

/// Version `t` is in place and belongs to package `q`.
pub open spec fn lands(g: &PackageGraph, marks: Seq<Mark>, t: usize, q: int) -> bool {
    live(g, marks, false, t) && g.owner(t as int) == q
}

pub open spec fn targets_land(g: &PackageGraph, marks: Seq<Mark>, targets: Seq<usize>, q: int) -> bool {
    exists|k: int| 0 <= k < targets.len() && lands(g, marks, #[trigger] targets[k], q)
}

pub open spec fn bases_land(g: &PackageGraph, marks: Seq<Mark>, bases: Seq<BaseDep>, q: int) -> bool {
    exists|j: int| 0 <= j < bases.len() && targets_land(g, marks, (#[trigger] bases[j])@.targets, q)
}

/// The dependency `d` is one that matters and asks for a package, and `q`
/// has a version in place that meets it.
pub open spec fn group_lands(g: &PackageGraph, pol: Policy, marks: Seq<Mark>, d: Dependency, q: int) -> bool {
    pol.important(d.dep_type) && d.dep_type.positive() && bases_land(g, marks, d.base_deps@, q)
}

pub open spec fn version_lands(g: &PackageGraph, pol: Policy, marks: Seq<Mark>, v: int, q: int) -> bool {
    exists|i: int| 0 <= i < g.deps(v).len() && group_lands(g, pol, marks, #[trigger] g.deps(v)[i], q)
}

/// Package `p` keeps package `q` alive: the version of `p` that will be in
/// place has a dependency that matters and that the version of `q` that will
/// be in place meets.
pub open spec fn edge(g: &PackageGraph, pol: Policy, marks: Seq<Mark>, p: int, q: int) -> bool {
    &&& 0 <= p < marks.len()
    &&& 0 <= q < marks.len()
    &&& match placed(g, marks, false, p) {
        Some(v) => version_lands(g, pol, marks, v as int, q),
        None => false,
    }
}

/// `path` leads from a root along edges.
pub open spec fn is_path(g: &PackageGraph, pol: Policy, marks: Seq<Mark>, path: Seq<int>) -> bool {
    &&& path.len() > 0
    &&& root(g, marks, path[0])
    &&& forall|i: int|
        0 <= i < path.len() - 1 ==> edge(g, pol, marks, #[trigger] path[i], path[i + 1])
}

/// Some root keeps package `q` alive, directly or through others.
pub open spec fn reachable(g: &PackageGraph, pol: Policy, marks: Seq<Mark>, q: int) -> bool {
    exists|path: Seq<int>| #[trigger] is_path(g, pol, marks, path) && path.last() == q
}

/// Package `p` was installed for the sake of others, and nothing that is
/// wanted keeps it alive.
pub open spec fn garbage(g: &PackageGraph, pol: Policy, marks: Seq<Mark>, p: int) -> bool {
    marks[p].auto_installed && !reachable(g, pol, marks, p)
}

/// The flags say what follows from the marks.
pub open spec fn swept(g: &PackageGraph, pol: Policy, marks: Seq<Mark>, flags: Seq<Flags>) -> bool {
    &&& flags.len() == marks.len()
    &&& forall|p: int|
        0 <= p < flags.len() ==> {
            &&& (#[trigger] flags[p]).now_broken == broken(g, pol, marks, true, p)
            &&& flags[p].inst_broken == broken(g, pol, marks, false, p)
            &&& flags[p].garbage == garbage(g, pol, marks, p)
            &&& flags[p].conflicted == conflicted(g, marks, p)
        }
}

/// The flags that follow from the marks.
pub open spec fn flags_of(g: &PackageGraph, pol: Policy, marks: Seq<Mark>) -> Seq<Flags> {
    Seq::new(
        marks.len(),
        |p: int|
            Flags {
                now_broken: broken(g, pol, marks, true, p),
                inst_broken: broken(g, pol, marks, false, p),
                garbage: garbage(g, pol, marks, p),
                conflicted: conflicted(g, marks, p),
            },
    )
}

/// Swept flags are the flags that follow from the marks, and no others.
pub proof fn lemma_swept_flags(g: &PackageGraph, pol: Policy, marks: Seq<Mark>, flags: Seq<Flags>)
    ensures
        swept(g, pol, marks, flags) <==> flags == flags_of(g, pol, marks),
{
    if swept(g, pol, marks, flags) {
        assert(flags =~= flags_of(g, pol, marks));
    }
}

/// A root is kept alive.
pub proof fn lemma_root_reachable(g: &PackageGraph, pol: Policy, marks: Seq<Mark>, p: int)
    requires
        root(g, marks, p),
    ensures
        reachable(g, pol, marks, p),
{
    let path = seq![p];
    assert(is_path(g, pol, marks, path));
    assert(path.last() == p);
}

/// What a kept-alive package keeps alive is kept alive.
pub proof fn lemma_edge_reachable(g: &PackageGraph, pol: Policy, marks: Seq<Mark>, p: int, q: int)
    requires
        reachable(g, pol, marks, p),
        edge(g, pol, marks, p, q),
    ensures
        reachable(g, pol, marks, q),
{
    let path = choose|path: Seq<int>| #[trigger] is_path(g, pol, marks, path) && path.last() == p;
    let longer = path.push(q);
    assert forall|i: int| 0 <= i < longer.len() - 1 implies edge(
        g,
        pol,
        marks,
        #[trigger] longer[i],
        longer[i + 1],
    ) by {
        if i < path.len() - 1 {
            assert(longer[i] == path[i]);
            assert(longer[i + 1] == path[i + 1]);
        }
    }
    assert(longer[0] == path[0]);
    assert(is_path(g, pol, marks, longer));
    assert(longer.last() == q);
}

/// A set of packages that holds every root and everything that its members
/// keep alive holds every package that is kept alive.
pub proof fn lemma_closed_holds_reachable(
    g: &PackageGraph,
    pol: Policy,
    marks: Seq<Mark>,
    seen: Seq<bool>,
    q: int,
)
    requires
        seen.len() == marks.len(),
        forall|p: int| root(g, marks, p) ==> seen[p],
        forall|p: int, r: int| 0 <= p < seen.len() && seen[p] && edge(g, pol, marks, p, r) ==> seen[r],
        reachable(g, pol, marks, q),
    ensures
        0 <= q < seen.len(),
        seen[q],
{
    let path = choose|path: Seq<int>| #[trigger] is_path(g, pol, marks, path) && path.last() == q;
    lemma_path_seen(g, pol, marks, seen, path, path.len() - 1);
}

proof fn lemma_path_seen(
    g: &PackageGraph,
    pol: Policy,
    marks: Seq<Mark>,
    seen: Seq<bool>,
    path: Seq<int>,
    i: int,
)
    requires
        seen.len() == marks.len(),
        forall|p: int| root(g, marks, p) ==> seen[p],
        forall|p: int, r: int| 0 <= p < seen.len() && seen[p] && edge(g, pol, marks, p, r) ==> seen[r],
        is_path(g, pol, marks, path),
        0 <= i < path.len(),
    ensures
        0 <= path[i] < seen.len(),
        seen[path[i]],
    decreases i,
{
    if i > 0 {
        lemma_path_seen(g, pol, marks, seen, path, i - 1);
        assert(edge(g, pol, marks, path[i - 1], path[i - 1 + 1]));
    }
}

/// The version of package `p` that is in place.
pub fn placed_exec(g: &PackageGraph, marks: &Vec<Mark>, now: bool, p: usize) -> (v: Option<usize>)
    requires
        g.wf(),
        marks_wf(g, marks@),
        p < g.npkg(),
    ensures
        v == placed(g, marks@, now, p as int),
        v matches Some(i) ==> i < g.nver() && g.owner(i as int) == p,
{
    assert(g.pkg_ok(p as int));
    if now {
        g.packages[p].current
    } else {
        match marks[p].selected {
            SelectedState::Install => marks[p].candidate,
            SelectedState::DeInstall | SelectedState::Purge => None,
            _ => g.packages[p].current,
        }
    }
}

/// Whether version `t` is in place.
pub fn live_exec(g: &PackageGraph, marks: &Vec<Mark>, now: bool, t: usize) -> (yes: bool)
    requires
        g.wf(),
        marks_wf(g, marks@),
        t < g.nver(),
    ensures
        yes == live(g, marks@, now, t),
{
    assert(g.ver_ok(t as int));
    match placed_exec(g, marks, now, g.versions[t].pkg) {
        Some(v) => v == t,
        None => false,
    }
}

/// Whether one of `targets` counts for a dependency of package `owner`.
pub fn targets_hit_exec(
    g: &PackageGraph,
    marks: &Vec<Mark>,
    now: bool,
    b: &BaseDep,
    owner: usize,
    foreign: bool,
) -> (yes: bool)
    requires
        g.wf(),
        marks_wf(g, marks@),
        crate::graph::base_ok(*b, g.nver()),
    ensures
        yes == targets_hit(g, marks@, now, b@.targets, owner, foreign),
{
    let targets = b.all_targets();
    let mut k: usize = 0;
    while k < targets.len()
        invariant
            g.wf(),
            marks_wf(g, marks@),
            crate::graph::base_ok(*b, g.nver()),
            targets@ == b@.targets,
            k <= targets.len(),
            forall|m: int| 0 <= m < k ==> !hit(g, marks@, now, #[trigger] targets@[m], owner, foreign),
        decreases targets.len() - k,
    {
        let t = targets[k];
        assert(t == b@.targets[k as int]);
        assert(g.ver_ok(t as int));
        if live_exec(g, marks, now, t) && (!foreign || g.versions[t].pkg != owner) {
            return true;
        }
        k += 1;
    }
    false
}

/// Whether one of the alternatives of `d` has a target that counts.
pub fn bases_hit_exec(
    g: &PackageGraph,
    marks: &Vec<Mark>,
    now: bool,
    d: &Dependency,
    owner: usize,
    foreign: bool,
) -> (yes: bool)
    requires
        g.wf(),
        marks_wf(g, marks@),
        crate::graph::group_ok(*d, g.nver()),
    ensures
        yes == bases_hit(g, marks@, now, d.base_deps@, owner, foreign),
{
    let mut j: usize = 0;
    while j < d.base_deps.len()
        invariant
            g.wf(),
            marks_wf(g, marks@),
            crate::graph::group_ok(*d, g.nver()),
            j <= d.base_deps.len(),
            forall|m: int|
                0 <= m < j ==> !targets_hit(
                    g,
                    marks@,
                    now,
                    (#[trigger] d.base_deps@[m])@.targets,
                    owner,
                    foreign,
                ),
        decreases d.base_deps.len() - j,
    {
        if targets_hit_exec(g, marks, now, &d.base_deps[j], owner, foreign) {
            return true;
        }
        j += 1;
    }
    false
}

/// Whether the dependency `d` of a version of package `owner` is met.
pub fn group_met_exec(
    g: &PackageGraph,
    pol: &Policy,
    marks: &Vec<Mark>,
    now: bool,
    d: &Dependency,
    owner: usize,
) -> (yes: bool)
    requires
        g.wf(),
        marks_wf(g, marks@),
        crate::graph::group_ok(*d, g.nver()),
    ensures
        yes == group_met(g, *pol, marks@, now, *d, owner),
{
    if !pol.is_important(d.dep_type) {
        true
    } else if d.dep_type.is_negative() {
        !bases_hit_exec(g, marks, now, d, owner, true)
    } else {
        bases_hit_exec(g, marks, now, d, owner, false)
    }
}

/// Whether every dependency of version `v` is met.
pub fn version_met_exec(g: &PackageGraph, pol: &Policy, marks: &Vec<Mark>, now: bool, v: usize) -> (yes:
    bool)
    requires
        g.wf(),
        marks_wf(g, marks@),
        v < g.nver(),
    ensures
        yes == version_met(g, *pol, marks@, now, v as int),
{
    assert(g.ver_ok(v as int));
    let node = &g.versions[v];
    let mut i: usize = 0;
    while i < node.depends.len()
        invariant
            g.wf(),
            marks_wf(g, marks@),
            v < g.nver(),
            g.ver_ok(v as int),
            node.depends@ == g.deps(v as int),
            node.pkg == g.owner(v as int),
            i <= node.depends.len(),
            forall|m: int|
                0 <= m < i ==> group_met(g, *pol, marks@, now, #[trigger] g.deps(v as int)[m], node.pkg),
        decreases node.depends.len() - i,
    {
        assert(crate::graph::group_ok(g.deps(v as int)[i as int], g.nver()));
        if !group_met_exec(g, pol, marks, now, &node.depends[i], node.pkg) {
            return false;
        }
        i += 1;
    }
    true
}

/// Whether package `p` is broken.
pub fn broken_exec(g: &PackageGraph, pol: &Policy, marks: &Vec<Mark>, now: bool, p: usize) -> (yes: bool)
    requires
        g.wf(),
        marks_wf(g, marks@),
        p < g.npkg(),
    ensures
        yes == broken(g, *pol, marks@, now, p as int),
{
    match placed_exec(g, marks, now, p) {
        Some(v) => !version_met_exec(g, pol, marks, now, v),
        None => false,
    }
}

/// Whether one of the targets of `b` belongs to another package than `p`
/// that is marked for installation at that version.
pub fn targets_rival_exec(g: &PackageGraph, marks: &Vec<Mark>, b: &BaseDep, p: usize) -> (yes: bool)
    requires
        g.wf(),
        marks_wf(g, marks@),
        crate::graph::base_ok(*b, g.nver()),
    ensures
        yes == targets_rival(g, marks@, b@.targets, p),
{
    let targets = b.all_targets();
    let mut k: usize = 0;
    while k < targets.len()
        invariant
            g.wf(),
            marks_wf(g, marks@),
            crate::graph::base_ok(*b, g.nver()),
            targets@ == b@.targets,
            k <= targets.len(),
            forall|m: int| 0 <= m < k ==> !rival(g, marks@, #[trigger] targets@[m], p),
        decreases targets.len() - k,
    {
        let t = targets[k];
        assert(t == b@.targets[k as int]);
        assert(g.ver_ok(t as int));
        let q = g.versions[t].pkg;
        if q != p && live_exec(g, marks, false, t) {
            match marks[q].selected {
                SelectedState::Install => {
                    return true;
                },
                _ => {},
            }
        }
        k += 1;
    }
    false
}

/// Whether one of the alternatives of `d` has a target that belongs to
/// another package than `p` that is marked for installation at that
/// version.
pub fn bases_rival_exec(g: &PackageGraph, marks: &Vec<Mark>, d: &Dependency, p: usize) -> (yes: bool)
    requires
        g.wf(),
        marks_wf(g, marks@),
        crate::graph::group_ok(*d, g.nver()),
    ensures
        yes == bases_rival(g, marks@, d.base_deps@, p),
{
    let mut j: usize = 0;
    while j < d.base_deps.len()
        invariant
            g.wf(),
            marks_wf(g, marks@),
            crate::graph::group_ok(*d, g.nver()),
            j <= d.base_deps.len(),
            forall|m: int|
                0 <= m < j ==> !targets_rival(g, marks@, (#[trigger] d.base_deps@[m])@.targets, p),
        decreases d.base_deps.len() - j,
    {
        if targets_rival_exec(g, marks, &d.base_deps[j], p) {
            return true;
        }
        j += 1;
    }
    false
}

/// Whether package `p` clashes with another package that is marked for
/// installation.
pub fn conflicted_exec(g: &PackageGraph, marks: &Vec<Mark>, p: usize) -> (yes: bool)
    requires
        g.wf(),
        marks_wf(g, marks@),
        p < g.npkg(),
    ensures
        yes == conflicted(g, marks@, p as int),
{
    let v = match marks[p].selected {
        SelectedState::Install => match marks[p].candidate {
            Some(v) => v,
            None => {
                return false;
            },
        },
        _ => {
            return false;
        },
    };
    assert(g.ver_ok(v as int));
    let node = &g.versions[v];
    let mut i: usize = 0;
    while i < node.depends.len()
        invariant
            g.wf(),
            marks_wf(g, marks@),
            v < g.nver(),
            g.ver_ok(v as int),
            node.depends@ == g.deps(v as int),
            p < g.npkg(),
            marks@[p as int].selected == SelectedState::Install,
            marks@[p as int].candidate == Some(v),
            i <= node.depends.len(),
            forall|m: int|
                0 <= m < i ==> !((#[trigger] g.deps(v as int)[m]).dep_type.clashing() && bases_rival(
                    g,
                    marks@,
                    g.deps(v as int)[m].base_deps@,
                    p,
                )),
        decreases node.depends.len() - i,
    {
        let d = &node.depends[i];
        assert(crate::graph::group_ok(g.deps(v as int)[i as int], g.nver()));
        if d.dep_type.is_clashing() && bases_rival_exec(g, marks, d, p) {
            return true;
        }
        i += 1;
    }
    false
}

} // verus!

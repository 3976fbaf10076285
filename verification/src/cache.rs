//! The cache: the package graph together with the overlay of marks, which
//! is built only when it is first needed.
use vstd::prelude::*;
use once_cell::unsync::OnceCell;
use crate::cell::{cell_get, cell_new, cell_overlay, cell_set, cell_take};
use crate::config::{resolve, split_key, truth, Config};
use crate::depcache::{deleting, initial_marks, upgradable, PkgDepCache};
use crate::graph::PackageGraph;
use crate::package::{full_name, Package};
use crate::rules::{broken, flags_of, garbage, lemma_swept_flags, Flags, Mark, Policy, SelectedState};
use crate::text::{
    equal_text, lemma_before_total, lemma_before_trans, text_before, text_before_exec, to_chars,
};

verus! {

/// The overlay of a graph, built when it is first needed.
///
/// Until then the state is the one on disk: nothing is marked, and the
/// flags are those that follow from that. A query on an overlay that is not
/// built computes that state for the occasion: call `init` first where many
/// queries follow.
pub struct DepCache {
    pub(crate) cell: OnceCell<PkgDepCache>,
    pub(crate) graph: PackageGraph,
    pub(crate) policy: Policy,
}

impl DepCache {
    pub open(crate) spec fn graph(&self) -> &PackageGraph {
        &self.graph
    }

    pub open(crate) spec fn policy(&self) -> Policy {
        self.policy
    }

    /// The overlay, once it has been built.
    pub open(crate) spec fn overlay(&self) -> Option<PkgDepCache> {
        cell_overlay(self.cell)
    }

    pub open spec fn marks(&self) -> Seq<Mark> {
        match self.overlay() {
            Some(o) => o.marks(),
            None => initial_marks(self.graph()),
        }
    }

    pub open spec fn flags(&self) -> Seq<Flags> {
        match self.overlay() {
            Some(o) => o.flags(),
            None => flags_of(self.graph(), self.policy(), initial_marks(self.graph())),
        }
    }

    /// The number of action groups that are open.
    pub open spec fn depth(&self) -> usize {
        match self.overlay() {
            Some(o) => o.depth(),
            None => 0,
        }
    }

    /// The number of sweeps made, the one that builds the overlay counted
    /// from the start.
    pub open spec fn sweeps(&self) -> u64 {
        match self.overlay() {
            Some(o) => o.sweeps(),
            None => 1,
        }
    }

    /// The graph is in order, and the overlay, where it has been built,
    /// fits it.
    pub open spec fn wf(&self) -> bool {
        &&& self.graph().wf()
        &&& match self.overlay() {
            Some(o) => o.wf(self.graph()) && o.policy() == self.policy(),
            None => true,
        }
    }

    /// An overlay for `graph` that is not built yet. A graph that is not in
    /// order is refused.
    pub fn new(graph: PackageGraph, policy: Policy) -> (cache: Option<DepCache>)
        ensures
            cache.is_some() == graph.wf(),
            cache matches Some(c) ==> {
                &&& c.wf()
                &&& *c.graph() == graph
                &&& c.policy() == policy
                &&& c.overlay().is_none()
            },
    {
        if !graph.validate() {
            return None;
        }
        Some(DepCache { cell: cell_new(), graph, policy })
    }

    /// The graph.
    pub fn graph_ref(&self) -> (g: &PackageGraph)
        ensures
            g == self.graph(),
    {
        &self.graph
    }

    /// Clears all changes made to packages: the overlay is dropped, and the
    /// state is the one on disk again.
    pub fn clear(&mut self)
        requires
            old(self).wf(),
        ensures
            final(self).wf(),
            final(self).overlay().is_none(),
            final(self).graph() == old(self).graph(),
            final(self).policy() == old(self).policy(),
    {
        let _ = cell_take(&mut self.cell);
    }

    /// Builds the overlay where it has not been built yet. The state stays
    /// what it was.
    pub fn init(&mut self)
        requires
            old(self).wf(),
        ensures
            final(self).wf(),
            final(self).overlay().is_some(),
            final(self).graph() == old(self).graph(),
            final(self).policy() == old(self).policy(),
            final(self).marks() == old(self).marks(),
            final(self).flags() == old(self).flags(),
            final(self).depth() == old(self).depth(),
            final(self).sweeps() == old(self).sweeps(),
    {
        let overlay = self.take();
        self.restore(overlay);
    }

    /// Hands the overlay out to be changed, building it where it has not
    /// been built yet. The cell is empty afterwards: put the overlay back
    /// with `restore`.
    pub fn take(&mut self) -> (overlay: PkgDepCache)
        requires
            old(self).wf(),
        ensures
            final(self).wf(),
            final(self).overlay().is_none(),
            final(self).graph() == old(self).graph(),
            final(self).policy() == old(self).policy(),
            overlay.wf(final(self).graph()),
            overlay.policy() == old(self).policy(),
            overlay.marks() == old(self).marks(),
            overlay.flags() == old(self).flags(),
            overlay.depth() == old(self).depth(),
            overlay.sweeps() == old(self).sweeps(),
    {
        match cell_take(&mut self.cell) {
            Some(overlay) => overlay,
            None => {
                let overlay = PkgDepCache::new(&self.graph, self.policy);
                proof {
                    lemma_swept_flags(&self.graph, self.policy, overlay.marks(), overlay.flags());
                }
                overlay
            },
        }
    }

    /// Puts an overlay in place. One that was in place before is dropped.
    pub fn restore(&mut self, overlay: PkgDepCache)
        requires
            old(self).wf(),
            overlay.wf(old(self).graph()),
            overlay.policy() == old(self).policy(),
        ensures
            final(self).wf(),
            final(self).overlay() == Some(overlay),
            final(self).graph() == old(self).graph(),
            final(self).policy() == old(self).policy(),
    {
        let _ = cell_take(&mut self.cell);
        let _ = cell_set(&mut self.cell, overlay);
    }

    /// Check if the package is upgradable.
    pub fn is_upgradable(&self, p: usize) -> (yes: bool)
        requires
            self.wf(),
        ensures
            yes == (p < self.graph().npkg() && upgradable(self.marks()[p as int], self.graph().current(p as int))),
    {
        match cell_get(&self.cell) {
            Some(o) => o.is_upgradable(&self.graph, p),
            None => PkgDepCache::new(&self.graph, self.policy).is_upgradable(&self.graph, p),
        }
    }

    /// Check if the package is auto installed.
    pub fn is_auto_installed(&self, p: usize) -> (yes: bool)
        requires
            self.wf(),
        ensures
            yes == (p < self.graph().npkg() && self.marks()[p as int].auto_installed),
    {
        match cell_get(&self.cell) {
            Some(o) => o.is_auto_installed(&self.graph, p),
            None => PkgDepCache::new(&self.graph, self.policy).is_auto_installed(&self.graph, p),
        }
    }

    /// Check if the package is garbage, by the flag of the last sweep.
    pub fn is_garbage(&self, p: usize) -> (yes: bool)
        requires
            self.wf(),
        ensures
            yes == (p < self.graph().npkg() && self.flags()[p as int].garbage),
            self.depth() == 0 && p < self.graph().npkg() ==> yes == garbage(
                self.graph(),
                self.policy(),
                self.marks(),
                p as int,
            ),
    {
        match cell_get(&self.cell) {
            Some(o) => o.is_garbage(&self.graph, p),
            None => {
                let o = PkgDepCache::new(&self.graph, self.policy);
                proof {
                    lemma_swept_flags(&self.graph, self.policy, o.marks(), o.flags());
                }
                o.is_garbage(&self.graph, p)
            },
        }
    }

    /// Check if the package is auto removable: it is installed or marked
    /// for a fresh installation, and it is garbage.
    pub fn is_auto_removable(&self, p: usize) -> (yes: bool)
        requires
            self.wf(),
        ensures
            yes == (p < self.graph().npkg() && self.flags()[p as int].garbage && (self.graph().current(
                p as int,
            ).is_some() || self.marks()[p as int].selected == SelectedState::Install)),
    {
        if p >= self.graph.packages.len() {
            return false;
        }
        (self.graph.packages[p].current.is_some() || self.marked_install(p)) && self.is_garbage(p)
    }

    /// Check if the package is marked for a fresh installation.
    pub fn marked_install(&self, p: usize) -> (yes: bool)
        requires
            self.wf(),
        ensures
            yes == (p < self.graph().npkg() && self.marks()[p as int].selected == SelectedState::Install
                && self.graph().current(p as int).is_none()),
    {
        match cell_get(&self.cell) {
            Some(o) => o.marked_install(&self.graph, p),
            None => PkgDepCache::new(&self.graph, self.policy).marked_install(&self.graph, p),
        }
    }

    /// Check if the package is marked for upgrade.
    pub fn marked_upgrade(&self, p: usize) -> (yes: bool)
        requires
            self.wf(),
        ensures
            yes == (p < self.graph().npkg() && self.marks()[p as int].selected == SelectedState::Install
                && upgradable(self.marks()[p as int], self.graph().current(p as int))),
    {
        match cell_get(&self.cell) {
            Some(o) => o.marked_upgrade(&self.graph, p),
            None => PkgDepCache::new(&self.graph, self.policy).marked_upgrade(&self.graph, p),
        }
    }

    /// Check if the package is marked for removal.
    pub fn marked_delete(&self, p: usize) -> (yes: bool)
        requires
            self.wf(),
        ensures
            yes == (p < self.graph().npkg() && deleting(self.marks()[p as int])),
    {
        match cell_get(&self.cell) {
            Some(o) => o.marked_delete(&self.graph, p),
            None => PkgDepCache::new(&self.graph, self.policy).marked_delete(&self.graph, p),
        }
    }

    /// Check if the package is marked for keep.
    pub fn marked_keep(&self, p: usize) -> (yes: bool)
        requires
            self.wf(),
        ensures
            yes == (p < self.graph().npkg() && (self.marks()[p as int].selected == SelectedState::Keep
                || self.marks()[p as int].selected == SelectedState::Unknown)),
    {
        match cell_get(&self.cell) {
            Some(o) => o.marked_keep(&self.graph, p),
            None => PkgDepCache::new(&self.graph, self.policy).marked_keep(&self.graph, p),
        }
    }

    /// Check if the package is marked for downgrade.
    pub fn marked_downgrade(&self, p: usize) -> (yes: bool)
        requires
            self.wf(),
        ensures
            yes == (p < self.graph().npkg() && self.marks()[p as int].selected == SelectedState::Install && match (
                self.graph().current(p as int),
                self.marks()[p as int].candidate,
            ) {
                (Some(c), Some(v)) => v > c,
                _ => false,
            }),
    {
        match cell_get(&self.cell) {
            Some(o) => o.marked_downgrade(&self.graph, p),
            None => PkgDepCache::new(&self.graph, self.policy).marked_downgrade(&self.graph, p),
        }
    }

    /// Check if the package is marked to be installed again.
    pub fn marked_reinstall(&self, p: usize) -> (yes: bool)
        requires
            self.wf(),
        ensures
            yes == (p < self.graph().npkg() && self.marks()[p as int].reinstall && !deleting(
                self.marks()[p as int],
            ) && self.graph().current(p as int).is_some()),
    {
        match cell_get(&self.cell) {
            Some(o) => o.marked_reinstall(&self.graph, p),
            None => PkgDepCache::new(&self.graph, self.policy).marked_reinstall(&self.graph, p),
        }
    }

    /// Check if the installed package is broken, by the flag of the last
    /// sweep.
    pub fn is_now_broken(&self, p: usize) -> (yes: bool)
        requires
            self.wf(),
        ensures
            yes == (p < self.graph().npkg() && self.flags()[p as int].now_broken),
            self.depth() == 0 && p < self.graph().npkg() ==> yes == broken(
                self.graph(),
                self.policy(),
                self.marks(),
                true,
                p as int,
            ),
    {
        match cell_get(&self.cell) {
            Some(o) => o.is_now_broken(&self.graph, p),
            None => {
                let o = PkgDepCache::new(&self.graph, self.policy);
                proof {
                    lemma_swept_flags(&self.graph, self.policy, o.marks(), o.flags());
                }
                o.is_now_broken(&self.graph, p)
            },
        }
    }

    /// Check if the package is broken once the marks are carried out, by
    /// the flag of the last sweep.
    pub fn is_inst_broken(&self, p: usize) -> (yes: bool)
        requires
            self.wf(),
        ensures
            yes == (p < self.graph().npkg() && self.flags()[p as int].inst_broken),
            self.depth() == 0 && p < self.graph().npkg() ==> yes == broken(
                self.graph(),
                self.policy(),
                self.marks(),
                false,
                p as int,
            ),
    {
        match cell_get(&self.cell) {
            Some(o) => o.is_inst_broken(&self.graph, p),
            None => {
                let o = PkgDepCache::new(&self.graph, self.policy);
                proof {
                    lemma_swept_flags(&self.graph, self.policy, o.marks(), o.flags());
                }
                o.is_inst_broken(&self.graph, p)
            },
        }
    }

    /// The candidate of the package.
    pub fn candidate_version(&self, p: usize) -> (v: Option<usize>)
        requires
            self.wf(),
        ensures
            v == if p < self.graph().npkg() {
                self.marks()[p as int].candidate
            } else {
                None
            },
            v matches Some(i) ==> i < self.graph().nver() && self.graph().owner(i as int) == p,
    {
        match cell_get(&self.cell) {
            Some(o) => o.candidate_version(&self.graph, p),
            None => PkgDepCache::new(&self.graph, self.policy).candidate_version(&self.graph, p),
        }
    }
}

/// Which packages a listing holds. Each switch that is set narrows the
/// listing, but `virtual_pkgs`, which widens it to the packages without
/// versions.
#[derive(Clone, Copy, Debug, PartialEq, Eq, Structural)]
pub struct PackageSort {
    pub upgradable: bool,
    pub virtual_pkgs: bool,
    pub installed: bool,
    pub auto_installed: bool,
    pub auto_removable: bool,
}

impl Default for PackageSort {
    fn default() -> (sort: PackageSort)
        ensures
            sort == (PackageSort {
                upgradable: false,
                virtual_pkgs: false,
                installed: false,
                auto_installed: false,
                auto_removable: false,
            }),
    {
        PackageSort {
            upgradable: false,
            virtual_pkgs: false,
            installed: false,
            auto_installed: false,
            auto_removable: false,
        }
    }
}

impl PackageSort {
    /// If true, only packages that are upgradable will be included.
    pub fn upgradable(self, switch: bool) -> (sort: PackageSort)
        ensures
            sort == (PackageSort { upgradable: switch, ..self }),
    {
        let mut sort = self;
        sort.upgradable = switch;
        sort
    }

    /// If true, virtual packages will be included.
    pub fn virtual_pkgs(self, switch: bool) -> (sort: PackageSort)
        ensures
            sort == (PackageSort { virtual_pkgs: switch, ..self }),
    {
        let mut sort = self;
        sort.virtual_pkgs = switch;
        sort
    }

    /// If true, only packages that are installed will be included.
    pub fn installed(self, switch: bool) -> (sort: PackageSort)
        ensures
            sort == (PackageSort { installed: switch, ..self }),
    {
        let mut sort = self;
        sort.installed = switch;
        sort
    }

    /// If true, only packages that are auto installed will be included.
    pub fn auto_installed(self, switch: bool) -> (sort: PackageSort)
        ensures
            sort == (PackageSort { auto_installed: switch, ..self }),
    {
        let mut sort = self;
        sort.auto_installed = switch;
        sort
    }

    /// If true, only packages that are auto removable will be included.
    pub fn auto_removable(self, switch: bool) -> (sort: PackageSort)
        ensures
            sort == (PackageSort { auto_removable: switch, ..self }),
    {
        let mut sort = self;
        sort.auto_removable = switch;
        sort
    }
}

/// The policy that a configuration asks for.
pub open spec fn policy_of(config: &Config) -> Policy {
    Policy {
        install_recommends: switch_of(config, "APT::Install-Recommends"@, true),
        install_suggests: switch_of(config, "APT::Install-Suggests"@, false),
        remove_essential: switch_of(config, "APT::Get::Allow-Remove-Essential"@, false),
    }
}

/// What the configuration says of a switch.
pub open spec fn switch_of(config: &Config, key: Seq<char>, default: bool) -> bool {
    match resolve(config@, split_key(key)) {
        Some(i) => if config@[i as int].value.len() == 0 {
            default
        } else {
            truth(config@[i as int].value, default)
        },
        None => default,
    }
}

/// The position of the first colon of `s` at or behind `i`, or the length
/// of `s` where there is none.
pub open spec fn colon_from(s: Seq<char>, i: int) -> int
    decreases s.len() - i,
{
    if i < 0 || i >= s.len() {
        s.len() as int
    } else if s[i] == ':' {
        i
    } else {
        colon_from(s, i + 1)
    }
}

/// The name in `name` or `name:arch`.
pub open spec fn name_part(s: Seq<char>) -> Seq<char> {
    s.take(colon_from(s, 0))
}

/// The architecture in `name:arch`: what stands between the first colon
/// and the second; empty where there is no colon.
pub open spec fn arch_part(s: Seq<char>) -> Seq<char> {
    let first = colon_from(s, 0);
    if first >= s.len() {
        Seq::empty()
    } else {
        s.subrange(first + 1, colon_from(s, first + 1))
    }
}

/// Package `p` has the name `name` and the architecture `arch`, or the
/// native one where `arch` is empty.
pub open spec fn named(g: &PackageGraph, p: int, name: Seq<char>, arch: Seq<char>) -> bool {
    &&& g.packages@[p].name@ == name
    &&& g.packages@[p].arch@ == if arch.len() == 0 {
        g.native_arch@
    } else {
        arch
    }
}

/// The first package from `k` on with that name and architecture.
pub open spec fn find_from(g: &PackageGraph, name: Seq<char>, arch: Seq<char>, k: int) -> Option<usize>
    decreases g.npkg() - k,
{
    if k < 0 || k >= g.npkg() {
        None
    } else if named(g, k, name, arch) {
        Some(k as usize)
    } else {
        find_from(g, name, arch, k + 1)
    }
}

/// The name by which package `p` is sorted: its full name, the native
/// architecture left out.
pub open spec fn sort_name(g: &PackageGraph, p: int) -> Seq<char> {
    full_name(g.packages@[p].name@, g.packages@[p].arch@, g.native_arch@, true)
}

/// Package `p` stands before package `q` in a sorted listing, or is `q`:
/// its name comes first in the order of the dictionary, or the names are
/// the same and its index is not the greater.
pub open spec fn sorts_before(g: &PackageGraph, p: int, q: int) -> bool {
    text_before(sort_name(g, p), sort_name(g, q)) || (sort_name(g, p) == sort_name(g, q) && p <= q)
}

/// The indices of the packages of a list.
pub open spec fn indices(list: Seq<Package<'_>>) -> Seq<usize> {
    Seq::new(list.len(), |i: int| list[i].index())
}

/// The graph and its overlay.
pub struct Cache {
    pub(crate) depcache: DepCache,
}

impl Cache {
    pub open(crate) spec fn depcache(&self) -> &DepCache {
        &self.depcache
    }

    pub open spec fn graph(&self) -> &PackageGraph {
        self.depcache().graph()
    }

    pub open spec fn wf(&self) -> bool {
        self.depcache().wf()
    }

    /// Whether the listing `sort` holds package `p`.
    pub open spec fn selects(&self, sort: PackageSort, p: int) -> bool {
        let g = self.graph();
        let d = self.depcache();
        &&& sort.virtual_pkgs || g.packages@[p].versions@.len() > 0
        &&& sort.upgradable ==> upgradable(d.marks()[p], g.current(p))
        &&& sort.installed ==> g.current(p).is_some()
        &&& sort.auto_installed ==> d.marks()[p].auto_installed
        &&& sort.auto_removable ==> d.flags()[p].garbage && (g.current(p).is_some() || d.marks()[p].selected
            == SelectedState::Install)
    }

    /// The packages from `k` on that the listing holds, in their order.
    pub open spec fn listing(&self, sort: PackageSort, k: int) -> Seq<usize>
        decreases self.graph().npkg() - k,
    {
        if k < 0 || k >= self.graph().npkg() {
            Seq::empty()
        } else if self.selects(sort, k) {
            seq![k as usize] + self.listing(sort, k + 1)
        } else {
            self.listing(sort, k + 1)
        }
    }

    /// A cache over `graph`, with the policy that `config` asks for. A
    /// graph that is not in order is refused.
    pub fn new(graph: PackageGraph, config: &Config) -> (cache: Option<Cache>)
        requires
            config.wf(),
        ensures
            cache.is_some() == graph.wf(),
            cache matches Some(c) ==> {
                &&& c.wf()
                &&& *c.graph() == graph
                &&& c.depcache().policy() == policy_of(config)
                &&& c.depcache().overlay().is_none()
            },
    {
        let policy = Policy {
            install_recommends: config.bool("APT::Install-Recommends", true),
            install_suggests: config.bool("APT::Install-Suggests", false),
            remove_essential: config.bool("APT::Get::Allow-Remove-Essential", false),
        };
        match DepCache::new(graph, policy) {
            Some(depcache) => Some(Cache { depcache }),
            None => None,
        }
    }

    /// Clears all changes made to packages.
    pub fn clear(&mut self)
        requires
            old(self).wf(),
        ensures
            final(self).wf(),
            final(self).depcache().overlay().is_none(),
            final(self).graph() == old(self).graph(),
            final(self).depcache().policy() == old(self).depcache().policy(),
    {
        self.depcache.clear();
    }

    /// The graph.
    pub fn package_graph(&self) -> (g: &PackageGraph)
        ensures
            g == self.graph(),
    {
        &self.depcache.graph
    }

    /// The overlay, for reading.
    pub fn dep_cache(&self) -> (d: &DepCache)
        ensures
            d == self.depcache(),
    {
        &self.depcache
    }

    /// Hands the overlay out to be changed; see `DepCache::take`.
    pub fn take(&mut self) -> (overlay: PkgDepCache)
        requires
            old(self).wf(),
        ensures
            final(self).wf(),
            final(self).depcache().overlay().is_none(),
            final(self).graph() == old(self).graph(),
            final(self).depcache().policy() == old(self).depcache().policy(),
            overlay.wf(final(self).graph()),
            overlay.policy() == old(self).depcache().policy(),
            overlay.marks() == old(self).depcache().marks(),
            overlay.flags() == old(self).depcache().flags(),
            overlay.depth() == old(self).depcache().depth(),
            overlay.sweeps() == old(self).depcache().sweeps(),
    {
        self.depcache.take()
    }

    /// Puts an overlay in place; see `DepCache::restore`.
    pub fn restore(&mut self, overlay: PkgDepCache)
        requires
            old(self).wf(),
            overlay.wf(old(self).graph()),
            overlay.policy() == old(self).depcache().policy(),
        ensures
            final(self).wf(),
            final(self).depcache().overlay() == Some(overlay),
            final(self).graph() == old(self).graph(),
            final(self).depcache().policy() == old(self).depcache().policy(),
    {
        self.depcache.restore(overlay);
    }

    /// Find a package by name and architecture; an empty architecture asks
    /// for the native one.
    fn find_by_name(&self, name: &Vec<char>, arch: &Vec<char>) -> (found: Option<usize>)
        requires
            self.wf(),
        ensures
            found == find_from(self.graph(), name@, arch@, 0),
            found matches Some(p) ==> p < self.graph().npkg(),
    {
        let g = &self.depcache.graph;
        let native = to_chars(g.native_arch.as_str());
        let mut p: usize = 0;
        while p < g.packages.len()
            invariant
                g == self.graph(),
                native@ == g.native_arch@,
                p <= g.packages.len(),
                find_from(g, name@, arch@, p as int) == find_from(g, name@, arch@, 0),
            decreases g.packages.len() - p,
        {
            let node = &g.packages[p];
            let node_name = to_chars(node.name.as_str());
            let node_arch = to_chars(node.arch.as_str());
            let arch_fits = if arch.len() == 0 {
                equal_text(&node_arch, &native)
            } else {
                equal_text(&node_arch, arch)
            };
            if equal_text(&node_name, name) && arch_fits {
                return Some(p);
            }
            p += 1;
        }
        None
    }

    /// Get a single package.
    ///
    /// `cache.get("apt")` returns the package of the native architecture,
    /// `cache.get("apt:i386")` the one of the architecture `i386`.
    pub fn get<'a>(&'a self, name: &str) -> (found: Option<Package<'a>>)
        requires
            self.wf(),
        ensures
            match found {
                Some(pkg) => {
                    &&& pkg.wf()
                    &&& pkg.cache() == self
                    &&& find_from(self.graph(), name_part(name@), arch_part(name@), 0) == Some(pkg.index())
                },
                None => find_from(self.graph(), name_part(name@), arch_part(name@), 0).is_none(),
            },
    {
        let chars = to_chars(name);
        let mut pkg_name: Vec<char> = Vec::new();
        let mut i: usize = 0;
        while i < chars.len() && chars[i] != ':'
            invariant
                i <= chars.len(),
                pkg_name@ == chars@.take(i as int),
                colon_from(chars@, i as int) == colon_from(chars@, 0),
            decreases chars.len() - i,
        {
            pkg_name.push(chars[i]);
            assert(pkg_name@ =~= chars@.take(i + 1));
            i += 1;
        }
        let mut arch: Vec<char> = Vec::new();
        if i < chars.len() {
            let first = i;
            i += 1;
            while i < chars.len() && chars[i] != ':'
                invariant
                    first < i <= chars.len(),
                    arch@ == chars@.subrange(first + 1, i as int),
                    colon_from(chars@, i as int) == colon_from(chars@, first + 1),
                decreases chars.len() - i,
            {
                arch.push(chars[i]);
                assert(arch@ =~= chars@.subrange(first + 1, i + 1));
                i += 1;
            }
        } else {
            assert(arch@ =~= arch_part(chars@));
        }
        match self.find_by_name(&pkg_name, &arch) {
            Some(p) => Some(Package { cache: self, id: p }),
            None => None,
        }
    }

    /// Whether the listing `sort` holds package `p`.
    pub fn sort_package(&self, p: usize, sort: &PackageSort) -> (held: bool)
        requires
            self.wf(),
            p < self.graph().npkg(),
        ensures
            held == self.selects(*sort, p as int),
    {
        let g = &self.depcache.graph;
        let d = &self.depcache;
        if !sort.virtual_pkgs && g.packages[p].versions.len() == 0 {
            return false;
        }
        if sort.upgradable && !d.is_upgradable(p) {
            return false;
        }
        if sort.installed && g.packages[p].current.is_none() {
            return false;
        }
        if sort.auto_installed && !d.is_auto_installed(p) {
            return false;
        }
        if sort.auto_removable && !d.is_auto_removable(p) {
            return false;
        }
        true
    }

    /// Whether the listing `sort` holds package `p`, read from `overlay`.
    fn holds(&self, overlay: &PkgDepCache, p: usize, sort: &PackageSort) -> (held: bool)
        requires
            self.wf(),
            overlay.wf(self.graph()),
            overlay.marks() == self.depcache().marks(),
            overlay.flags() == self.depcache().flags(),
            p < self.graph().npkg(),
        ensures
            held == self.selects(*sort, p as int),
    {
        let g = &self.depcache.graph;
        if !sort.virtual_pkgs && g.packages[p].versions.len() == 0 {
            return false;
        }
        if sort.upgradable && !overlay.is_upgradable(g, p) {
            return false;
        }
        if sort.installed && g.packages[p].current.is_none() {
            return false;
        }
        if sort.auto_installed && !overlay.is_auto_installed(g, p) {
            return false;
        }
        if sort.auto_removable && !((g.packages[p].current.is_some() || overlay.marked_install(g, p))
            && overlay.is_garbage(g, p)) {
            return false;
        }
        true
    }

    /// The packages that the listing holds, read from `overlay`.
    fn list<'a>(&'a self, overlay: &PkgDepCache, sort: &PackageSort) -> (list: Vec<Package<'a>>)
        requires
            self.wf(),
            overlay.wf(self.graph()),
            overlay.marks() == self.depcache().marks(),
            overlay.flags() == self.depcache().flags(),
        ensures
            list@.len() == self.listing(*sort, 0).len(),
            forall|i: int|
                0 <= i < list@.len() ==> {
                    &&& (#[trigger] list@[i]).wf()
                    &&& list@[i].cache() == self
                    &&& list@[i].index() == self.listing(*sort, 0)[i]
                },
    {
        let n = self.depcache.graph.packages.len();
        let mut list: Vec<Package<'a>> = Vec::new();
        let ghost mut ids: Seq<usize> = Seq::empty();
        let mut p: usize = 0;
        while p < n
            invariant
                self.wf(),
                overlay.wf(self.graph()),
                overlay.marks() == self.depcache().marks(),
                overlay.flags() == self.depcache().flags(),
                n == self.graph().npkg(),
                p <= n,
                list@.len() == ids.len(),
                forall|i: int|
                    0 <= i < list@.len() ==> {
                        &&& (#[trigger] list@[i]).wf()
                        &&& list@[i].cache() == self
                        &&& list@[i].index() == ids[i]
                    },
                ids + self.listing(*sort, p as int) == self.listing(*sort, 0),
            decreases n - p,
        {
            if self.holds(overlay, p, sort) {
                list.push(Package { cache: self, id: p });
                proof {
                    let before = ids;
                    ids = ids.push(p);
                    assert(ids + self.listing(*sort, p + 1) =~= before + self.listing(*sort, p as int));
                }
            }
            p += 1;
        }
        assert(ids =~= ids + self.listing(*sort, n as int));
        list
    }

    /// The packages that the listing holds, in the order of the graph.
    ///
    /// Where the overlay is not built yet, the state on disk is computed
    /// once for the whole listing.
    pub fn packages<'a>(&'a self, sort: &PackageSort) -> (list: Vec<Package<'a>>)
        requires
            self.wf(),
        ensures
            list@.len() == self.listing(*sort, 0).len(),
            forall|i: int|
                0 <= i < list@.len() ==> {
                    &&& (#[trigger] list@[i]).wf()
                    &&& list@[i].cache() == self
                    &&& list@[i].index() == self.listing(*sort, 0)[i]
                },
    {
        match cell_get(&self.depcache.cell) {
            Some(overlay) => self.list(overlay, sort),
            None => {
                let overlay = PkgDepCache::new(&self.depcache.graph, self.depcache.policy);
                proof {
                    lemma_swept_flags(&self.depcache.graph, self.depcache.policy, overlay.marks(), overlay.flags());
                }
                self.list(&overlay, sort)
            },
        }
    }

    /// The packages that the listing holds, sorted by name.
    ///
    /// Slower than `packages`.
    pub fn sorted<'a>(&'a self, sort: &PackageSort) -> (list: Vec<Package<'a>>)
        requires
            self.wf(),
        ensures
            indices(list@).to_multiset() == self.listing(*sort, 0).to_multiset(),
            forall|i: int| 0 <= i < list@.len() ==> (#[trigger] list@[i]).wf() && list@[i].cache() == self,
            forall|i: int, j: int|
                0 <= i < j < list@.len() ==> sorts_before(
                    self.graph(),
                    (#[trigger] list@[i]).index() as int,
                    (#[trigger] list@[j]).index() as int,
                ),
    {
        let all = self.packages(sort);
        let ghost g = self.graph();
        let ghost wanted = self.listing(*sort, 0);
        assert(indices(all@) =~= wanted);
        let mut list: Vec<Package<'a>> = Vec::new();
        let mut keys: Vec<Vec<char>> = Vec::new();
        let mut k: usize = 0;
        assert(indices(list@) =~= wanted.take(0));
        while k < all.len()
            invariant
                self.wf(),
                g == self.graph(),
                indices(all@) == wanted,
                forall|i: int| 0 <= i < all@.len() ==> (#[trigger] all@[i]).wf() && all@[i].cache() == self,
                k <= all.len(),
                list@.len() == k,
                keys@.len() == k,
                indices(list@).to_multiset() == wanted.take(k as int).to_multiset(),
                forall|i: int| 0 <= i < k ==> (#[trigger] list@[i]).wf() && list@[i].cache() == self,
                forall|i: int| 0 <= i < k ==> (#[trigger] keys@[i])@ == sort_name(g, list@[i].index() as int),
                forall|i: int, j: int|
                    0 <= i < j < k ==> sorts_before(
                        g,
                        (#[trigger] list@[i]).index() as int,
                        (#[trigger] list@[j]).index() as int,
                    ),
            decreases all.len() - k,
        {
            let pkg = all[k];
            let key = to_chars(pkg.name().as_str());
            let ghost x = pkg.index() as int;
            let mut at: usize = 0;
            while at < list.len() && (text_before_exec(&keys[at], &key) || (equal_text(&keys[at], &key)
                && list[at].id <= pkg.id))
                invariant
                    at <= list@.len(),
                    list@.len() == keys@.len(),
                    key@ == sort_name(g, x),
                    x == pkg.index(),
                    forall|i: int| 0 <= i < list@.len() ==> (#[trigger] keys@[i])@ == sort_name(
                        g,
                        list@[i].index() as int,
                    ),
                    forall|i: int| 0 <= i < at ==> sorts_before(g, (#[trigger] list@[i]).index() as int, x),
                decreases list@.len() - at,
            {
                at += 1;
            }
            proof {
                if at < list@.len() {
                    let y = list@[at as int].index() as int;
                    assert(!sorts_before(g, y, x));
                    assert(sort_name(g, x).take(0) =~= sort_name(g, y).take(0));
                    lemma_before_total(sort_name(g, x), sort_name(g, y), 0);
                    assert(sorts_before(g, x, y));
                    assert forall|j: int| at <= j < list@.len() implies sorts_before(
                        g,
                        x,
                        (#[trigger] list@[j]).index() as int,
                    ) by {
                        let z = list@[j].index() as int;
                        if j > at {
                            assert(sorts_before(g, y, z));
                            if text_before(sort_name(g, x), sort_name(g, y)) && text_before(
                                sort_name(g, y),
                                sort_name(g, z),
                            ) {
                                lemma_before_trans(sort_name(g, x), sort_name(g, y), sort_name(g, z), 0);
                            }
                        }
                    }
                }
            }
            let ghost before = list@;
            list.insert(at, pkg);
            keys.insert(at, key);
            proof {
                assert(indices(list@) =~= indices(before).insert(at as int, pkg.index()));
                assert(wanted.take(k + 1) =~= wanted.take(k as int).push(wanted[k as int]));
                assert(wanted[k as int] == indices(all@)[k as int]);
                vstd::seq_lib::to_multiset_insert(indices(before), at as int, pkg.index());
                vstd::seq_lib::to_multiset_build(wanted.take(k as int), wanted[k as int]);
                assert forall|i: int, j: int| 0 <= i < j < k + 1 implies sorts_before(
                    g,
                    (#[trigger] list@[i]).index() as int,
                    (#[trigger] list@[j]).index() as int,
                ) by {
                    if i < at && j > at {
                        assert(list@[i] == before[i]);
                        assert(list@[j] == before[j - 1]);
                    } else if i < at && j < at {
                        assert(list@[i] == before[i]);
                        assert(list@[j] == before[j]);
                    } else if i < at && j == at {
                        assert(list@[i] == before[i]);
                    } else if i == at {
                        assert(list@[j] == before[j - 1]);
                    } else {
                        assert(list@[i] == before[i - 1]);
                        assert(list@[j] == before[j - 1]);
                    }
                }
            }
            k += 1;
        }
        assert(wanted.take(wanted.len() as int) =~= wanted);
        list
    }
}

} // verus!

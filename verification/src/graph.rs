//! The package graph: an arena of packages and versions addressed by index.
//!
//! The graph is plain data and is never changed once it is in use. The
//! versions of one package are listed newest first, and a newer version has
//! the lower index, so that two versions of a package are compared by index.
use vstd::prelude::*;
use crate::package::{BaseDep, Dependency};

verus! {

/// One version of a package.
#[derive(Debug)]
pub struct VerNode {
    /// The package that the version belongs to.
    pub pkg: usize,
    pub version: String,
    pub arch: String,
    pub section: String,
    pub priority_str: String,
    pub source_name: String,
    pub source_version: String,
    /// The pin priority; a negative one forbids the version.
    pub priority: i32,
    /// The size of the archive.
    pub size: u64,
    /// The size once unpacked.
    pub installed_size: u64,
    pub downloadable: bool,
    pub depends: Vec<Dependency>,
    /// The key of the description record.
    pub desc_file: usize,
    /// The keys of the records of the files that hold the version.
    pub files: Vec<usize>,
}

/// The selected state of a package that the administrator holds back.
pub const SELECTED_HOLD: u8 = 2;

/// One package.
#[derive(Debug)]
pub struct PkgNode {
    pub name: String,
    pub arch: String,
    pub essential: bool,
    pub current_state: u8,
    pub inst_state: u8,
    /// What the administrator has selected for the package; see
    /// `SELECTED_HOLD`.
    pub selected_state: u8,
    pub has_provides: bool,
    /// Installed for the sake of another package, as recorded on disk.
    pub auto_installed: bool,
    /// The versions of the package, newest first.
    pub versions: Vec<usize>,
    /// The version that is installed, if any.
    pub current: Option<usize>,
}

impl PkgNode {
    /// The package is held back by the administrator: the planner neither
    /// installs nor upgrades nor removes it on its own account.
    pub open spec fn held(&self) -> bool {
        self.selected_state == SELECTED_HOLD
    }

    /// Whether the package is held back by the administrator.
    pub fn is_held(&self) -> (yes: bool)
        ensures
            yes == self.held(),
    {
        self.selected_state == SELECTED_HOLD
    }
}

/// The graph.
#[derive(Debug)]
pub struct PackageGraph {
    pub native_arch: String,
    pub packages: Vec<PkgNode>,
    pub versions: Vec<VerNode>,
}

/// Every target of the alternative is a version of the graph.
pub open spec fn base_ok(b: BaseDep, nver: int) -> bool {
    forall|k: int| 0 <= k < b@.targets.len() ==> #[trigger] b@.targets[k] < nver
}

/// The group has an alternative, and each alternative is in order.
pub open spec fn group_ok(d: Dependency, nver: int) -> bool {
    &&& d.base_deps@.len() > 0
    &&& forall|j: int| 0 <= j < d.base_deps@.len() ==> base_ok(#[trigger] d.base_deps@[j], nver)
}

pub open spec fn deps_ok(deps: Seq<Dependency>, nver: int) -> bool {
    forall|i: int| 0 <= i < deps.len() ==> group_ok(#[trigger] deps[i], nver)
}

impl PackageGraph {
    pub open spec fn npkg(&self) -> int {
        self.packages@.len() as int
    }

    pub open spec fn nver(&self) -> int {
        self.versions@.len() as int
    }

    /// The package of version `v`.
    pub open spec fn owner(&self, v: int) -> usize {
        self.versions@[v].pkg
    }

    /// The dependencies of version `v`.
    pub open spec fn deps(&self, v: int) -> Seq<Dependency> {
        self.versions@[v].depends@
    }

    /// The installed version of package `p`.
    pub open spec fn current(&self, p: int) -> Option<usize> {
        self.packages@[p].current
    }

    /// Version `v` belongs to a package of the graph and stands in the
    /// version list of that package, and its targets are versions of the
    /// graph.
    pub open spec fn ver_ok(&self, v: int) -> bool {
        &&& self.versions@[v].pkg < self.npkg()
        &&& self.packages@[self.versions@[v].pkg as int].versions@.contains(v as usize)
        &&& deps_ok(self.deps(v), self.nver())
    }

    /// The version list of package `p` holds versions of `p`, newest first,
    /// and so is its installed version one of its own.
    pub open spec fn pkg_ok(&self, p: int) -> bool {
        let list = self.packages@[p].versions@;
        &&& forall|k: int|
            0 <= k < list.len() ==> #[trigger] list[k] < self.nver() && self.owner(list[k] as int) == p
        &&& forall|k: int| 0 <= k < list.len() - 1 ==> #[trigger] list[k] < list[k + 1]
        &&& match self.current(p) {
            Some(c) => c < self.nver() && self.owner(c as int) == p,
            None => true,
        }
    }

    /// The graph is in order.
    pub open spec fn wf(&self) -> bool {
        &&& self.npkg() <= u32::MAX
        &&& self.nver() <= u32::MAX
        &&& forall|v: int| 0 <= v < self.nver() ==> #[trigger] self.ver_ok(v)
        &&& forall|p: int| 0 <= p < self.npkg() ==> #[trigger] self.pkg_ok(p)
    }

    fn check_base(b: &BaseDep, nver: usize) -> (ok: bool)
        ensures
            ok == base_ok(*b, nver as int),
    {
        let targets = b.all_targets();
        let mut k: usize = 0;
        while k < targets.len()
            invariant
                k <= targets.len(),
                targets@ == b@.targets,
                forall|m: int| 0 <= m < k ==> #[trigger] b@.targets[m] < nver,
            decreases targets.len() - k,
        {
            if targets[k] >= nver {
                return false;
            }
            k += 1;
        }
        true
    }

    fn check_group(d: &Dependency, nver: usize) -> (ok: bool)
        ensures
            ok == group_ok(*d, nver as int),
    {
        if d.base_deps.len() == 0 {
            return false;
        }
        let mut j: usize = 0;
        while j < d.base_deps.len()
            invariant
                j <= d.base_deps.len(),
                d.base_deps@.len() > 0,
                forall|m: int| 0 <= m < j ==> base_ok(#[trigger] d.base_deps@[m], nver as int),
            decreases d.base_deps.len() - j,
        {
            if !Self::check_base(&d.base_deps[j], nver) {
                return false;
            }
            j += 1;
        }
        true
    }

    /// Whether `list` holds `v`.
    fn listed(list: &Vec<usize>, v: usize) -> (yes: bool)
        ensures
            yes == list@.contains(v),
    {
        let mut k: usize = 0;
        while k < list.len()
            invariant
                k <= list.len(),
                forall|m: int| 0 <= m < k ==> list@[m] != v,
            decreases list.len() - k,
        {
            if list[k] == v {
                return true;
            }
            k += 1;
        }
        false
    }

    fn check_version(&self, v: usize) -> (ok: bool)
        requires
            v < self.nver(),
        ensures
            ok == self.ver_ok(v as int),
    {
        let node = &self.versions[v];
        if node.pkg >= self.packages.len() {
            return false;
        }
        if !Self::listed(&self.packages[node.pkg].versions, v) {
            return false;
        }
        let nver = self.versions.len();
        let mut i: usize = 0;
        while i < node.depends.len()
            invariant
                i <= node.depends.len(),
                node.depends@ == self.deps(v as int),
                nver == self.nver(),
                forall|m: int| 0 <= m < i ==> group_ok(#[trigger] self.deps(v as int)[m], nver as int),
            decreases node.depends.len() - i,
        {
            if !Self::check_group(&node.depends[i], nver) {
                return false;
            }
            i += 1;
        }
        true
    }

    fn check_package(&self, p: usize) -> (ok: bool)
        requires
            p < self.npkg(),
        ensures
            ok == self.pkg_ok(p as int),
    {
        let node = &self.packages[p];
        let nver = self.versions.len();
        match node.current {
            Some(c) => {
                if c >= nver || self.versions[c].pkg != p {
                    return false;
                }
            },
            None => {},
        }
        let list = &node.versions;
        let mut k: usize = 0;
        while k < list.len()
            invariant
                k <= list.len(),
                list@ == self.packages@[p as int].versions@,
                nver == self.nver(),
                forall|m: int|
                    0 <= m < k ==> #[trigger] list@[m] < self.nver() && self.owner(list@[m] as int) == p,
                forall|m: int| 0 <= m < k - 1 ==> #[trigger] list@[m] < list@[m + 1],
            decreases list.len() - k,
        {
            let v = list[k];
            if v >= nver || self.versions[v].pkg != p {
                return false;
            }
            if k > 0 && list[k - 1] >= v {
                assert(!(list@[k - 1] < list@[k - 1 + 1]));
                return false;
            }
            k += 1;
        }
        true
    }

    /// Whether the graph is in order: only such a graph can be planned on.
    pub fn validate(&self) -> (ok: bool)
        ensures
            ok == self.wf(),
    {
        if self.packages.len() > 0xffff_ffff || self.versions.len() > 0xffff_ffff {
            return false;
        }
        let mut v: usize = 0;
        while v < self.versions.len()
            invariant
                v <= self.versions.len(),
                forall|m: int| 0 <= m < v ==> #[trigger] self.ver_ok(m),
            decreases self.versions.len() - v,
        {
            if !self.check_version(v) {
                return false;
            }
            v += 1;
        }
        let mut p: usize = 0;
        while p < self.packages.len()
            invariant
                p <= self.packages.len(),
                forall|m: int| 0 <= m < p ==> #[trigger] self.pkg_ok(m),
            decreases self.packages.len() - p,
        {
            if !self.check_package(p) {
                return false;
            }
            p += 1;
        }
        true
    }
}

} // verus!

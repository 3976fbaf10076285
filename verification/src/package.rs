//! Dependencies between versions: the kinds of relation, the single
//! alternative and the group of alternatives.
use vstd::prelude::*;
use crate::cache::Cache;
use crate::depcache::{deleting, upgradable};
use crate::records::{after_lookup, after_lookups, digest_of, remote_uris, uri_of, Lookup, Records};
use crate::rules::SelectedState;
use crate::text::{
    bool_text, digits, equal_text, from_chars, put, put_bool, put_decimal, put_signed, signed_digits,
    starts_with_exec, to_chars,
};

verus! {

/// The kind of relation that a dependency states.
#[derive(Clone, Copy, Debug, PartialEq, Eq, Structural)]
pub enum DepType {
    Depends,
    PreDepends,
    Suggests,
    Recommends,
    Conflicts,
    Replaces,
    Obsoletes,
    Breaks,
    Enhances,
}

impl DepType {
    /// A relation that asks for another package to be in place.
    pub open spec fn positive(self) -> bool {
        self == DepType::Depends || self == DepType::PreDepends || self == DepType::Recommends
            || self == DepType::Suggests
    }

    /// A relation that forbids another package to be in place.
    pub open spec fn negative(self) -> bool {
        self == DepType::Conflicts || self == DepType::Breaks || self == DepType::Obsoletes
    }

    /// A relation that states a conflict between two packages.
    pub open spec fn clashing(self) -> bool {
        self == DepType::Conflicts || self == DepType::Breaks
    }

    /// Whether the relation asks for another package to be in place.
    pub fn is_positive(self) -> (yes: bool)
        ensures
            yes == self.positive(),
    {
        match self {
            DepType::Depends | DepType::PreDepends | DepType::Recommends | DepType::Suggests => true,
            _ => false,
        }
    }

    /// Whether the relation forbids another package to be in place.
    pub fn is_negative(self) -> (yes: bool)
        ensures
            yes == self.negative(),
    {
        match self {
            DepType::Conflicts | DepType::Breaks | DepType::Obsoletes => true,
            _ => false,
        }
    }

    /// Whether the relation states a conflict between two packages.
    pub fn is_clashing(self) -> (yes: bool)
        ensures
            yes == self.clashing(),
    {
        match self {
            DepType::Conflicts | DepType::Breaks => true,
            _ => false,
        }
    }

    /// The position of the kind in the order in which the kinds are listed.
    pub open spec fn rank(self) -> int {
        match self {
            DepType::Depends => 0,
            DepType::PreDepends => 1,
            DepType::Suggests => 2,
            DepType::Recommends => 3,
            DepType::Conflicts => 4,
            DepType::Replaces => 5,
            DepType::Obsoletes => 6,
            DepType::Breaks => 7,
            DepType::Enhances => 8,
        }
    }

    /// The name of the kind as control files write it.
    pub open spec fn name(self) -> Seq<char> {
        match self {
            DepType::Depends => "Depends"@,
            DepType::PreDepends => "PreDepends"@,
            DepType::Suggests => "Suggests"@,
            DepType::Recommends => "Recommends"@,
            DepType::Conflicts => "Conflicts"@,
            DepType::Replaces => "Replaces"@,
            DepType::Obsoletes => "Obsoletes"@,
            DepType::Breaks => "Breaks"@,
            DepType::Enhances => "Enhances"@,
        }
    }

    /// The kind that `name` stands for.
    pub fn parse(name: &str) -> (kind: Option<DepType>)
        ensures
            kind == parse_kind(name@),
    {
        let chars = to_chars(name);
        if equal_text(&chars, &to_chars("Depends")) {
            Some(DepType::Depends)
        } else if equal_text(&chars, &to_chars("PreDepends")) {
            Some(DepType::PreDepends)
        } else if equal_text(&chars, &to_chars("Suggests")) {
            Some(DepType::Suggests)
        } else if equal_text(&chars, &to_chars("Recommends")) {
            Some(DepType::Recommends)
        } else if equal_text(&chars, &to_chars("Conflicts")) {
            Some(DepType::Conflicts)
        } else if equal_text(&chars, &to_chars("Replaces")) {
            Some(DepType::Replaces)
        } else if equal_text(&chars, &to_chars("Obsoletes")) {
            Some(DepType::Obsoletes)
        } else if equal_text(&chars, &to_chars("Breaks")) {
            Some(DepType::Breaks)
        } else if equal_text(&chars, &to_chars("Enhances")) {
            Some(DepType::Enhances)
        } else {
            None
        }
    }

    /// The kind at position `i` of the list of kinds.
    pub fn from_rank(i: usize) -> (kind: DepType)
        ensures
            kind == kind_at(i as int),
    {
        if i == 0 {
            DepType::Depends
        } else if i == 1 {
            DepType::PreDepends
        } else if i == 2 {
            DepType::Suggests
        } else if i == 3 {
            DepType::Recommends
        } else if i == 4 {
            DepType::Conflicts
        } else if i == 5 {
            DepType::Replaces
        } else if i == 6 {
            DepType::Obsoletes
        } else if i == 7 {
            DepType::Breaks
        } else {
            DepType::Enhances
        }
    }

    /// The name of the kind as control files write it.
    pub fn as_str(self) -> (name: &'static str)
        ensures
            name@ == self.name(),
    {
        match self {
            DepType::Depends => "Depends",
            DepType::PreDepends => "PreDepends",
            DepType::Suggests => "Suggests",
            DepType::Recommends => "Recommends",
            DepType::Conflicts => "Conflicts",
            DepType::Replaces => "Replaces",
            DepType::Obsoletes => "Obsoletes",
            DepType::Breaks => "Breaks",
            DepType::Enhances => "Enhances",
        }
    }
}

/// The kind that a name stands for, if it is the name of a kind.
pub open spec fn parse_kind(s: Seq<char>) -> Option<DepType> {
    if s == "Depends"@ {
        Some(DepType::Depends)
    } else if s == "PreDepends"@ {
        Some(DepType::PreDepends)
    } else if s == "Suggests"@ {
        Some(DepType::Suggests)
    } else if s == "Recommends"@ {
        Some(DepType::Recommends)
    } else if s == "Conflicts"@ {
        Some(DepType::Conflicts)
    } else if s == "Replaces"@ {
        Some(DepType::Replaces)
    } else if s == "Obsoletes"@ {
        Some(DepType::Obsoletes)
    } else if s == "Breaks"@ {
        Some(DepType::Breaks)
    } else if s == "Enhances"@ {
        Some(DepType::Enhances)
    } else {
        None
    }
}

/// The kind at a position of the list of kinds; `Enhances` behind its end.
pub open spec fn kind_at(i: int) -> DepType {
    if i == 0 {
        DepType::Depends
    } else if i == 1 {
        DepType::PreDepends
    } else if i == 2 {
        DepType::Suggests
    } else if i == 3 {
        DepType::Recommends
    } else if i == 4 {
        DepType::Conflicts
    } else if i == 5 {
        DepType::Replaces
    } else if i == 6 {
        DepType::Obsoletes
    } else if i == 7 {
        DepType::Breaks
    } else {
        DepType::Enhances
    }
}

/// Those of `deps`, from position `k` on, that are of kind `kind`.
pub open spec fn of_kind(deps: Seq<Dependency>, kind: DepType, k: int) -> Seq<Dependency>
    decreases deps.len() - k,
{
    if k < 0 || k >= deps.len() {
        Seq::empty()
    } else if deps[k].dep_type == kind {
        seq![deps[k]] + of_kind(deps, kind, k + 1)
    } else {
        of_kind(deps, kind, k + 1)
    }
}

/// What the references point to.
pub open spec fn derefs(s: Seq<&Dependency>) -> Seq<Dependency> {
    Seq::new(s.len(), |i: int| *s[i])
}

/// An alternative in words.
pub open spec fn base_text(b: BaseDepView) -> Seq<char> {
    "BaseDep <Name: "@ + b.name + ", Version: "@ + b.version + ", Comp: "@ + b.comp + ", Type: "@
        + b.dep_type.name() + ">"@
}

/// The alternatives from position `k` on in words, each on a line of its
/// own.
pub open spec fn bases_text(bases: Seq<BaseDep>, k: int) -> Seq<char>
    decreases bases.len() - k,
{
    if k < 0 || k >= bases.len() {
        Seq::empty()
    } else {
        "\n    "@ + base_text(bases[k]@) + ","@ + bases_text(bases, k + 1)
    }
}

/// A dependency in words.
pub open spec fn dependency_text(d: Dependency) -> Seq<char> {
    (if d.base_deps@.len() > 1 {
        "Or Dependencies["@
    } else {
        "Dependency["@
    }) + bases_text(d.base_deps@, 0) + "\n]"@
}

/// A package in words.
pub open spec fn package_text(node: crate::graph::PkgNode, full: Seq<char>, id: nat) -> Seq<char> {
    "Package< name: "@ + full + ", arch: "@ + node.arch@ + ", id: "@ + digits(id) + ", essential: "@
        + bool_text(node.essential) + ", states: [curr: "@ + digits(node.current_state as nat) + ", inst "@
        + digits(node.inst_state as nat) + ", sel "@ + digits(node.selected_state as nat) + "], virtual: "@
        + bool_text(node.versions@.len() == 0) + ", provides: "@ + bool_text(node.has_provides) + ">"@
}

/// A version in words. The two sizes are given as they are to be shown.
pub open spec fn version_text(
    node: crate::graph::VerNode,
    pkgname: Seq<char>,
    id: nat,
    size: Seq<char>,
    installed_size: Seq<char>,
) -> Seq<char> {
    pkgname + ": Version "@ + node.version@ + " <ID: "@ + digits(id) + ", arch: "@ + node.arch@ + ", size: "@
        + size + ", installed_size: "@ + installed_size + ", section: "@ + node.section@ + " Priority "@
        + node.priority_str@ + " at "@ + signed_digits(node.priority as int) + ", downloadable: "@ + bool_text(
        node.downloadable,
    ) + ">"@
}

/// What one alternative of a dependency holds, as mathematical values.
pub struct BaseDepView {
    pub name: Seq<char>,
    pub version: Seq<char>,
    pub comp: Seq<char>,
    pub dep_type: DepType,
    pub targets: Seq<usize>,
}

/// One alternative of a dependency: a package by name, perhaps held to a
/// range of versions, and the versions of the graph that satisfy it.
#[derive(Debug)]
pub struct BaseDep {
    name: String,
    version: String,
    comp: String,
    dep_type: DepType,
    targets: Vec<usize>,
}

impl View for BaseDep {
    type V = BaseDepView;

    closed spec fn view(&self) -> BaseDepView {
        BaseDepView {
            name: self.name@,
            version: self.version@,
            comp: self.comp@,
            dep_type: self.dep_type,
            targets: self.targets@,
        }
    }
}

impl BaseDep {
    /// An alternative that names the package `name`, with the comparison
    /// `comp` against `version` (both empty where any version will do), and
    /// with `targets`, the ids of the versions that satisfy it.
    pub fn new(name: &str, comp: &str, version: &str, dep_type: DepType, targets: Vec<usize>) -> (dep:
        BaseDep)
        ensures
            dep@ == (BaseDepView {
                name: name@,
                version: version@,
                comp: comp@,
                dep_type: dep_type,
                targets: targets@,
            }),
    {
        BaseDep {
            name: String::from_str(name),
            version: String::from_str(version),
            comp: String::from_str(comp),
            dep_type,
            targets,
        }
    }

    /// The name of the package that is asked for.
    pub fn name(&self) -> (name: &String)
        ensures
            name@ == self@.name,
    {
        &self.name
    }

    /// The version that the package is compared with; empty where any will do.
    pub fn version(&self) -> (version: &String)
        ensures
            version@ == self@.version,
    {
        &self.version
    }

    /// The comparison that the version of the package has to meet.
    pub fn comp(&self) -> (comp: &String)
        ensures
            comp@ == self@.comp,
    {
        &self.comp
    }

    /// The kind of relation.
    pub fn dep_type(&self) -> (kind: DepType)
        ensures
            kind == self@.dep_type,
    {
        self.dep_type
    }

    /// The alternative in words.
    pub fn describe(&self) -> (text: String)
        ensures
            text@ == base_text(self@),
    {
        let mut out: Vec<char> = Vec::new();
        self.write(&mut out);
        assert(out@ =~= base_text(self@));
        from_chars(&out)
    }

    fn write(&self, out: &mut Vec<char>)
        ensures
            final(out)@ == old(out)@ + base_text(self@),
    {
        let ghost start = out@;
        put(out, "BaseDep <Name: ");
        put(out, self.name.as_str());
        put(out, ", Version: ");
        put(out, self.version.as_str());
        put(out, ", Comp: ");
        put(out, self.comp.as_str());
        put(out, ", Type: ");
        put(out, self.dep_type.as_str());
        put(out, ">");
        assert(out@ =~= start + base_text(self@));
    }

    /// The ids of the versions that satisfy this alternative.
    pub fn all_targets(&self) -> (targets: &Vec<usize>)
        ensures
            targets@ == self@.targets,
    {
        &self.targets
    }
}

/// A group of alternatives: the dependency is met where any one of them is.
#[derive(Debug)]
pub struct Dependency {
    pub dep_type: DepType,
    pub base_deps: Vec<BaseDep>,
}

impl Dependency {
    /// Returns true if there are several alternatives that can satisfy this.
    pub fn is_or(&self) -> (several: bool)
        ensures
            several == (self.base_deps@.len() > 1),
    {
        self.base_deps.len() > 1
    }

    /// The dependency in words: its alternatives, each on a line of its
    /// own.
    pub fn describe(&self) -> (text: String)
        ensures
            text@ == dependency_text(*self),
    {
        let mut out: Vec<char> = Vec::new();
        if self.is_or() {
            put(&mut out, "Or Dependencies[");
        } else {
            put(&mut out, "Dependency[");
        }
        let ghost head = out@;
        let mut k: usize = 0;
        while k < self.base_deps.len()
            invariant
                k <= self.base_deps.len(),
                out@ + bases_text(self.base_deps@, k as int) == head + bases_text(self.base_deps@, 0),
            decreases self.base_deps.len() - k,
        {
            let ghost before = out@;
            put(&mut out, "\n    ");
            self.base_deps[k].write(&mut out);
            put(&mut out, ",");
            assert(out@ + bases_text(self.base_deps@, k + 1) =~= before + bases_text(
                self.base_deps@,
                k as int,
            ));
            k += 1;
        }
        assert(out@ =~= head + bases_text(self.base_deps@, 0));
        put(&mut out, "\n]");
        from_chars(&out)
    }

    /// Returns a reference to the first alternative.
    pub fn first(&self) -> (dep: &BaseDep)
        requires
            self.base_deps@.len() > 0,
        ensures
            *dep == self.base_deps@[0],
    {
        &self.base_deps[0]
    }
}

/// A package of a cache.
#[derive(Clone, Copy)]
pub struct Package<'a> {
    pub(crate) cache: &'a Cache,
    pub(crate) id: usize,
}

/// A version of a cache.
#[derive(Clone, Copy)]
pub struct Version<'a> {
    pub(crate) cache: &'a Cache,
    pub(crate) id: usize,
}

/// The full name of a package: the bare name for the native architecture
/// where `pretty` is set, else the name, a colon and the architecture.
pub open spec fn full_name(name: Seq<char>, arch: Seq<char>, native: Seq<char>, pretty: bool) -> Seq<char> {
    if pretty && arch == native {
        name
    } else {
        name + seq![':'] + arch
    }
}

impl<'a> Package<'a> {
    pub open(crate) spec fn cache(&self) -> &Cache {
        self.cache
    }

    /// The index of the package in the graph.
    pub open(crate) spec fn index(&self) -> usize {
        self.id
    }

    /// The handle names a package of a cache that is in order.
    pub open spec fn wf(&self) -> bool {
        self.cache().wf() && self.index() < self.cache().graph().npkg()
    }

    /// The node of the package in the graph.
    pub open spec fn node(&self) -> crate::graph::PkgNode {
        self.cache().graph().packages@[self.index() as int]
    }

    /// A handle on package `id` of `cache`, if there is such a package.
    pub fn new(cache: &'a Cache, id: usize) -> (pkg: Option<Package<'a>>)
        requires
            cache.wf(),
        ensures
            pkg.is_some() == (id < cache.graph().npkg()),
            pkg matches Some(p) ==> p.wf() && p.cache() == cache && p.index() == id,
    {
        if id < cache.package_graph().packages.len() {
            Some(Package { cache, id })
        } else {
            None
        }
    }

    /// Get the name of the package. Where the architecture is not the
    /// native one this is `name:arch`.
    pub fn name(&self) -> (name: String)
        requires
            self.wf(),
        ensures
            name@ == full_name(self.node().name@, self.node().arch@, self.cache().graph().native_arch@, true),
    {
        self.fullname(true)
    }

    /// Get the architecture of the package.
    pub fn arch(&self) -> (arch: String)
        requires
            self.wf(),
        ensures
            arch@ == self.node().arch@,
    {
        self.cache.package_graph().packages[self.id].arch.clone()
    }

    /// Get the id of the package.
    pub fn id(&self) -> (id: u32)
        requires
            self.wf(),
        ensures
            id == self.index(),
    {
        self.id as u32
    }

    /// The current state of the package.
    pub fn current_state(&self) -> (state: u8)
        requires
            self.wf(),
        ensures
            state == self.node().current_state,
    {
        self.cache.package_graph().packages[self.id].current_state
    }

    /// The installed state of the package.
    pub fn inst_state(&self) -> (state: u8)
        requires
            self.wf(),
        ensures
            state == self.node().inst_state,
    {
        self.cache.package_graph().packages[self.id].inst_state
    }

    /// The selected state of the package as recorded on disk.
    pub fn selected_state(&self) -> (state: u8)
        requires
            self.wf(),
        ensures
            state == self.node().selected_state,
    {
        self.cache.package_graph().packages[self.id].selected_state
    }

    /// Check if the package is essential or not.
    pub fn essential(&self) -> (yes: bool)
        requires
            self.wf(),
        ensures
            yes == self.node().essential,
    {
        self.cache.package_graph().packages[self.id].essential
    }

    /// Check if the package has versions.
    pub fn has_versions(&self) -> (yes: bool)
        requires
            self.wf(),
        ensures
            yes == (self.node().versions@.len() > 0),
    {
        self.cache.package_graph().packages[self.id].versions.len() > 0
    }

    /// Check if the package has provides.
    pub fn has_provides(&self) -> (yes: bool)
        requires
            self.wf(),
        ensures
            yes == self.node().has_provides,
    {
        self.cache.package_graph().packages[self.id].has_provides
    }

    /// Get the full name of the package. With `pretty` the native
    /// architecture is left out.
    pub fn fullname(&self, pretty: bool) -> (name: String)
        requires
            self.wf(),
        ensures
            name@ == full_name(self.node().name@, self.node().arch@, self.cache().graph().native_arch@, pretty),
    {
        let g = self.cache.package_graph();
        let node = &g.packages[self.id];
        if pretty && node.arch == g.native_arch {
            return node.name.clone();
        }
        let mut name = node.name.clone();
        proof {
            reveal_strlit(":");
        }
        name.append(":");
        name.append(node.arch.as_str());
        assert(name@ =~= node.name@ + seq![':'] + node.arch@);
        name
    }

    /// The package in words.
    pub fn describe(&self) -> (text: String)
        requires
            self.wf(),
        ensures
            text@ == package_text(
                self.node(),
                full_name(self.node().name@, self.node().arch@, self.cache().graph().native_arch@, true),
                self.index() as nat,
            ),
    {
        let node = &self.cache.package_graph().packages[self.id];
        let mut out: Vec<char> = Vec::new();
        put(&mut out, "Package< name: ");
        put(&mut out, self.name().as_str());
        put(&mut out, ", arch: ");
        put(&mut out, node.arch.as_str());
        put(&mut out, ", id: ");
        put_decimal(&mut out, self.id as u64);
        put(&mut out, ", essential: ");
        put_bool(&mut out, node.essential);
        put(&mut out, ", states: [curr: ");
        put_decimal(&mut out, node.current_state as u64);
        put(&mut out, ", inst ");
        put_decimal(&mut out, node.inst_state as u64);
        put(&mut out, ", sel ");
        put_decimal(&mut out, node.selected_state as u64);
        put(&mut out, "], virtual: ");
        put_bool(&mut out, node.versions.len() == 0);
        put(&mut out, ", provides: ");
        put_bool(&mut out, node.has_provides);
        put(&mut out, ">");
        assert(out@ =~= package_text(
            self.node(),
            full_name(self.node().name@, self.node().arch@, self.cache().graph().native_arch@, true),
            self.index() as nat,
        ));
        from_chars(&out)
    }

    /// Returns the candidate of the package, if there is one.
    pub fn candidate(&self) -> (ver: Option<Version<'a>>)
        requires
            self.wf(),
        ensures
            match ver {
                Some(v) => {
                    &&& v.wf()
                    &&& v.cache() == self.cache()
                    &&& self.cache().depcache().marks()[self.index() as int].candidate == Some(v.index())
                },
                None => self.cache().depcache().marks()[self.index() as int].candidate.is_none(),
            },
    {
        match self.cache.dep_cache().candidate_version(self.id) {
            Some(v) => Some(Version { cache: self.cache, id: v }),
            None => None,
        }
    }

    /// Returns the installed version of the package, if there is one.
    pub fn installed(&self) -> (ver: Option<Version<'a>>)
        requires
            self.wf(),
        ensures
            match ver {
                Some(v) => v.wf() && v.cache() == self.cache() && self.node().current == Some(v.index()),
                None => self.node().current.is_none(),
            },
    {
        assert(self.cache().graph().pkg_ok(self.index() as int));
        match self.cache.package_graph().packages[self.id].current {
            Some(v) => Some(Version { cache: self.cache, id: v }),
            None => None,
        }
    }

    /// Check if the package is installed.
    pub fn is_installed(&self) -> (yes: bool)
        requires
            self.wf(),
        ensures
            yes == self.node().current.is_some(),
    {
        self.cache.package_graph().packages[self.id].current.is_some()
    }

    /// Check if the package is upgradable.
    pub fn is_upgradable(&self) -> (yes: bool)
        requires
            self.wf(),
        ensures
            yes == upgradable(self.cache().depcache().marks()[self.index() as int], self.node().current),
    {
        self.cache.dep_cache().is_upgradable(self.id)
    }

    /// Check if the package is auto installed.
    pub fn is_auto_installed(&self) -> (yes: bool)
        requires
            self.wf(),
        ensures
            yes == self.cache().depcache().marks()[self.index() as int].auto_installed,
    {
        self.cache.dep_cache().is_auto_installed(self.id)
    }

    /// Check if the package is auto removable.
    pub fn is_auto_removable(&self) -> (yes: bool)
        requires
            self.wf(),
        ensures
            yes == (self.cache().depcache().flags()[self.index() as int].garbage && (
            self.node().current.is_some() || self.cache().depcache().marks()[self.index() as int].selected
                == SelectedState::Install)),
    {
        self.cache.dep_cache().is_auto_removable(self.id)
    }

    /// Check if the package is garbage.
    pub fn is_garbage(&self) -> (yes: bool)
        requires
            self.wf(),
        ensures
            yes == self.cache().depcache().flags()[self.index() as int].garbage,
    {
        self.cache.dep_cache().is_garbage(self.id)
    }

    /// Check if the package is now broken.
    pub fn is_now_broken(&self) -> (yes: bool)
        requires
            self.wf(),
        ensures
            yes == self.cache().depcache().flags()[self.index() as int].now_broken,
    {
        self.cache.dep_cache().is_now_broken(self.id)
    }

    /// Check if the package is broken once the marks are carried out.
    pub fn is_inst_broken(&self) -> (yes: bool)
        requires
            self.wf(),
        ensures
            yes == self.cache().depcache().flags()[self.index() as int].inst_broken,
    {
        self.cache.dep_cache().is_inst_broken(self.id)
    }

    /// Check if the package is marked for a fresh installation.
    pub fn marked_install(&self) -> (yes: bool)
        requires
            self.wf(),
        ensures
            yes == (self.cache().depcache().marks()[self.index() as int].selected == SelectedState::Install
                && self.node().current.is_none()),
    {
        self.cache.dep_cache().marked_install(self.id)
    }

    /// Check if the package is marked for upgrade.
    pub fn marked_upgrade(&self) -> (yes: bool)
        requires
            self.wf(),
        ensures
            yes == (self.cache().depcache().marks()[self.index() as int].selected == SelectedState::Install
                && upgradable(self.cache().depcache().marks()[self.index() as int], self.node().current)),
    {
        self.cache.dep_cache().marked_upgrade(self.id)
    }

    /// Check if the package is marked for removal.
    pub fn marked_delete(&self) -> (yes: bool)
        requires
            self.wf(),
        ensures
            yes == deleting(self.cache().depcache().marks()[self.index() as int]),
    {
        self.cache.dep_cache().marked_delete(self.id)
    }

    /// Check if the package is marked for keep.
    pub fn marked_keep(&self) -> (yes: bool)
        requires
            self.wf(),
        ensures
            yes == (self.cache().depcache().marks()[self.index() as int].selected == SelectedState::Keep
                || self.cache().depcache().marks()[self.index() as int].selected == SelectedState::Unknown),
    {
        self.cache.dep_cache().marked_keep(self.id)
    }

    /// Check if the package is marked for downgrade.
    pub fn marked_downgrade(&self) -> (yes: bool)
        requires
            self.wf(),
        ensures
            yes == (self.cache().depcache().marks()[self.index() as int].selected == SelectedState::Install
                && match (self.node().current, self.cache().depcache().marks()[self.index() as int].candidate) {
                (Some(c), Some(v)) => v > c,
                _ => false,
            }),
    {
        self.cache.dep_cache().marked_downgrade(self.id)
    }

    /// Check if the package is marked to be installed again.
    pub fn marked_reinstall(&self) -> (yes: bool)
        requires
            self.wf(),
        ensures
            yes == (self.cache().depcache().marks()[self.index() as int].reinstall && !deleting(
                self.cache().depcache().marks()[self.index() as int],
            ) && self.node().current.is_some()),
    {
        self.cache.dep_cache().marked_reinstall(self.id)
    }

    /// Returns the versions of the package, the newest first: every version
    /// of the graph that belongs to the package, and no other.
    pub fn versions(&self) -> (list: Vec<Version<'a>>)
        requires
            self.wf(),
        ensures
            list@.len() == self.node().versions@.len(),
            forall|i: int|
                0 <= i < list@.len() ==> {
                    &&& (#[trigger] list@[i]).wf()
                    &&& list@[i].cache() == self.cache()
                    &&& list@[i].index() == self.node().versions@[i]
                },
            forall|v: int|
                0 <= v < self.cache().graph().nver() && self.cache().graph().owner(v) == self.index()
                    ==> #[trigger] self.node().versions@.contains(v as usize),
    {
        assert(self.cache().graph().pkg_ok(self.index() as int));
        assert forall|v: int|
            0 <= v < self.cache().graph().nver() && self.cache().graph().owner(v)
                == self.index() implies #[trigger] self.node().versions@.contains(v as usize) by {
            assert(self.cache().graph().ver_ok(v));
        }
        let ids = &self.cache.package_graph().packages[self.id].versions;
        let mut list: Vec<Version<'a>> = Vec::new();
        let mut k: usize = 0;
        while k < ids.len()
            invariant
                self.wf(),
                self.cache().graph().pkg_ok(self.index() as int),
                ids@ == self.node().versions@,
                k <= ids.len(),
                list@.len() == k,
                forall|i: int|
                    0 <= i < k ==> {
                        &&& (#[trigger] list@[i]).wf()
                        &&& list@[i].cache() == self.cache()
                        &&& list@[i].index() == ids@[i]
                    },
            decreases ids.len() - k,
        {
            list.push(Version { cache: self.cache, id: ids[k] });
            k += 1;
        }
        list
    }
}

impl<'a> Version<'a> {
    pub open(crate) spec fn cache(&self) -> &Cache {
        self.cache
    }

    /// The index of the version in the graph.
    pub open(crate) spec fn index(&self) -> usize {
        self.id
    }

    /// The handle names a version of a cache that is in order.
    pub open spec fn wf(&self) -> bool {
        self.cache().wf() && self.index() < self.cache().graph().nver()
    }

    /// The node of the version in the graph.
    pub open spec fn node(&self) -> crate::graph::VerNode {
        self.cache().graph().versions@[self.index() as int]
    }

    /// A handle on version `id` of `cache`, if there is such a version.
    pub fn new(cache: &'a Cache, id: usize) -> (ver: Option<Version<'a>>)
        requires
            cache.wf(),
        ensures
            ver.is_some() == (id < cache.graph().nver()),
            ver matches Some(v) ==> v.wf() && v.cache() == cache && v.index() == id,
    {
        if id < cache.package_graph().versions.len() {
            Some(Version { cache, id })
        } else {
            None
        }
    }

    /// The package that the version belongs to.
    pub fn parent(&self) -> (pkg: Package<'a>)
        requires
            self.wf(),
        ensures
            pkg.wf(),
            pkg.cache() == self.cache(),
            pkg.index() == self.node().pkg,
    {
        assert(self.cache().graph().ver_ok(self.index() as int));
        Package { cache: self.cache, id: self.cache.package_graph().versions[self.id].pkg }
    }

    /// The name of the package that the version belongs to.
    pub fn pkgname(&self) -> (name: String)
        requires
            self.wf(),
        ensures
            name@ == self.cache().graph().packages@[self.node().pkg as int].name@,
    {
        assert(self.cache().graph().ver_ok(self.index() as int));
        let g = self.cache.package_graph();
        g.packages[g.versions[self.id].pkg].name.clone()
    }

    /// The architecture of the version.
    pub fn arch(&self) -> (arch: String)
        requires
            self.wf(),
        ensures
            arch@ == self.node().arch@,
    {
        self.cache.package_graph().versions[self.id].arch.clone()
    }

    /// The version string of the version.
    pub fn version(&self) -> (version: String)
        requires
            self.wf(),
        ensures
            version@ == self.node().version@,
    {
        self.cache.package_graph().versions[self.id].version.clone()
    }

    /// The section of the version.
    pub fn section(&self) -> (section: String)
        requires
            self.wf(),
        ensures
            section@ == self.node().section@,
    {
        self.cache.package_graph().versions[self.id].section.clone()
    }

    /// The priority of the version as a word.
    pub fn priority_str(&self) -> (priority: String)
        requires
            self.wf(),
        ensures
            priority@ == self.node().priority_str@,
    {
        self.cache.package_graph().versions[self.id].priority_str.clone()
    }

    /// The name of the source package the version was built from.
    pub fn source_name(&self) -> (name: String)
        requires
            self.wf(),
        ensures
            name@ == self.node().source_name@,
    {
        self.cache.package_graph().versions[self.id].source_name.clone()
    }

    /// The version of the source package.
    pub fn source_version(&self) -> (version: String)
        requires
            self.wf(),
        ensures
            version@ == self.node().source_version@,
    {
        self.cache.package_graph().versions[self.id].source_version.clone()
    }

    /// The pin priority of the version.
    pub fn priority(&self) -> (priority: i32)
        requires
            self.wf(),
        ensures
            priority == self.node().priority,
    {
        self.cache.package_graph().versions[self.id].priority
    }

    /// The size of the archive.
    pub fn size(&self) -> (size: u64)
        requires
            self.wf(),
        ensures
            size == self.node().size,
    {
        self.cache.package_graph().versions[self.id].size
    }

    /// The size once unpacked.
    pub fn installed_size(&self) -> (size: u64)
        requires
            self.wf(),
        ensures
            size == self.node().installed_size,
    {
        self.cache.package_graph().versions[self.id].installed_size
    }

    /// The id of the version.
    pub fn id(&self) -> (id: u32)
        requires
            self.wf(),
        ensures
            id == self.index(),
    {
        self.id as u32
    }

    /// If the version is able to be downloaded.
    pub fn downloadable(&self) -> (yes: bool)
        requires
            self.wf(),
        ensures
            yes == self.node().downloadable,
    {
        self.cache.package_graph().versions[self.id].downloadable
    }

    /// Check if the version is installed.
    pub fn is_installed(&self) -> (yes: bool)
        requires
            self.wf(),
        ensures
            yes == (self.cache().graph().current(self.node().pkg as int) == Some(self.index())),
    {
        assert(self.cache().graph().ver_ok(self.index() as int));
        let g = self.cache.package_graph();
        match g.packages[g.versions[self.id].pkg].current {
            Some(c) => c == self.id,
            None => false,
        }
    }

    /// The version in words. The sizes are shown as `size` and
    /// `installed_size` give them.
    pub fn describe_with(&self, size: &str, installed_size: &str) -> (text: String)
        requires
            self.wf(),
        ensures
            text@ == version_text(
                self.node(),
                self.cache().graph().packages@[self.node().pkg as int].name@,
                self.index() as nat,
                size@,
                installed_size@,
            ),
    {
        let node = &self.cache.package_graph().versions[self.id];
        let mut out: Vec<char> = Vec::new();
        put(&mut out, self.pkgname().as_str());
        put(&mut out, ": Version ");
        put(&mut out, node.version.as_str());
        put(&mut out, " <ID: ");
        put_decimal(&mut out, self.id as u64);
        put(&mut out, ", arch: ");
        put(&mut out, node.arch.as_str());
        put(&mut out, ", size: ");
        put(&mut out, size);
        put(&mut out, ", installed_size: ");
        put(&mut out, installed_size);
        put(&mut out, ", section: ");
        put(&mut out, node.section.as_str());
        put(&mut out, " Priority ");
        put(&mut out, node.priority_str.as_str());
        put(&mut out, " at ");
        put_signed(&mut out, node.priority as i64);
        put(&mut out, ", downloadable: ");
        put_bool(&mut out, node.downloadable);
        put(&mut out, ">");
        assert(out@ =~= version_text(
            self.node(),
            self.cache().graph().packages@[self.node().pkg as int].name@,
            self.index() as nat,
            size@,
            installed_size@,
        ));
        from_chars(&out)
    }

    /// The dependencies of the version that are of kind `kind`, in their
    /// order.
    pub fn depends_of(&self, kind: DepType) -> (list: Vec<&'a Dependency>)
        requires
            self.wf(),
        ensures
            derefs(list@) == of_kind(self.node().depends@, kind, 0),
    {
        let deps = &self.cache.package_graph().versions[self.id].depends;
        let mut list: Vec<&'a Dependency> = Vec::new();
        let mut k: usize = 0;
        while k < deps.len()
            invariant
                deps@ == self.node().depends@,
                k <= deps.len(),
                derefs(list@) + of_kind(deps@, kind, k as int) == of_kind(deps@, kind, 0),
            decreases deps.len() - k,
        {
            if deps[k].dep_type == kind {
                let ghost before = derefs(list@);
                list.push(&deps[k]);
                assert(derefs(list@) =~= before.push(deps@[k as int]));
                assert(derefs(list@) + of_kind(deps@, kind, k + 1) =~= before + of_kind(deps@, kind, k as int));
            }
            k += 1;
        }
        assert(derefs(list@) =~= derefs(list@) + of_kind(deps@, kind, deps@.len() as int));
        list
    }

    /// The dependencies of the version by kind: one list for each kind, in
    /// the order in which the kinds are listed.
    pub fn depends_map(&self) -> (map: Vec<Vec<&'a Dependency>>)
        requires
            self.wf(),
        ensures
            map@.len() == 9,
            forall|i: int|
                0 <= i < 9 ==> derefs((#[trigger] map@[i])@) == of_kind(self.node().depends@, kind_at(i), 0),
    {
        let mut map: Vec<Vec<&'a Dependency>> = Vec::new();
        let mut i: usize = 0;
        while i < 9
            invariant
                self.wf(),
                i <= 9,
                map@.len() == i,
                forall|j: int|
                    0 <= j < i ==> derefs((#[trigger] map@[j])@) == of_kind(
                        self.node().depends@,
                        kind_at(j),
                        0,
                    ),
            decreases 9 - i,
        {
            map.push(self.depends_of(DepType::from_rank(i)));
            i += 1;
        }
        map
    }

    /// The dependencies of the kind that `key` names, if `key` names a kind
    /// and there are any.
    pub fn get_depends(&self, key: &str) -> (list: Option<Vec<&'a Dependency>>)
        requires
            self.wf(),
        ensures
            match list {
                Some(l) => {
                    &&& parse_kind(key@) matches Some(kind)
                    &&& l@.len() > 0
                    &&& derefs(l@) == of_kind(self.node().depends@, kind, 0)
                },
                None => match parse_kind(key@) {
                    Some(kind) => of_kind(self.node().depends@, kind, 0).len() == 0,
                    None => true,
                },
            },
    {
        match DepType::parse(key) {
            Some(kind) => {
                let list = self.depends_of(kind);
                if list.len() == 0 {
                    None
                } else {
                    Some(list)
                }
            },
            None => None,
        }
    }

    /// The dependencies of kind `Enhances`, if there are any.
    pub fn enhances(&self) -> (list: Option<Vec<&'a Dependency>>)
        requires
            self.wf(),
        ensures
            match list {
                Some(l) => l@.len() > 0 && derefs(l@) == of_kind(self.node().depends@, DepType::Enhances, 0),
                None => of_kind(self.node().depends@, DepType::Enhances, 0).len() == 0,
            },
    {
        let list = self.depends_of(DepType::Enhances);
        if list.len() == 0 {
            None
        } else {
            Some(list)
        }
    }

    /// The dependencies of kind `Recommends`, if there are any.
    pub fn recommended(&self) -> (list: Option<Vec<&'a Dependency>>)
        requires
            self.wf(),
        ensures
            match list {
                Some(l) => l@.len() > 0 && derefs(l@) == of_kind(self.node().depends@, DepType::Recommends, 0),
                None => of_kind(self.node().depends@, DepType::Recommends, 0).len() == 0,
            },
    {
        let list = self.depends_of(DepType::Recommends);
        if list.len() == 0 {
            None
        } else {
            Some(list)
        }
    }

    /// The dependencies of kind `Suggests`, if there are any.
    pub fn suggests(&self) -> (list: Option<Vec<&'a Dependency>>)
        requires
            self.wf(),
        ensures
            match list {
                Some(l) => l@.len() > 0 && derefs(l@) == of_kind(self.node().depends@, DepType::Suggests, 0),
                None => of_kind(self.node().depends@, DepType::Suggests, 0).len() == 0,
            },
    {
        let list = self.depends_of(DepType::Suggests);
        if list.len() == 0 {
            None
        } else {
            Some(list)
        }
    }

    /// The dependencies of kind `Depends`, then those of kind
    /// `PreDepends`, if there are any of either.
    pub fn dependencies(&self) -> (list: Option<Vec<&'a Dependency>>)
        requires
            self.wf(),
        ensures
            match list {
                Some(l) => l@.len() > 0 && derefs(l@) == of_kind(self.node().depends@, DepType::Depends, 0)
                    + of_kind(self.node().depends@, DepType::PreDepends, 0),
                None => of_kind(self.node().depends@, DepType::Depends, 0).len() == 0 && of_kind(
                    self.node().depends@,
                    DepType::PreDepends,
                    0,
                ).len() == 0,
            },
    {
        let mut ret_vec = self.depends_of(DepType::Depends);
        let pre = self.depends_of(DepType::PreDepends);
        let ghost first = derefs(ret_vec@);
        let mut k: usize = 0;
        while k < pre.len()
            invariant
                k <= pre.len(),
                derefs(ret_vec@) == first + derefs(pre@).take(k as int),
            decreases pre.len() - k,
        {
            let ghost before = derefs(ret_vec@);
            ret_vec.push(pre[k]);
            assert(derefs(ret_vec@) =~= before.push(*pre@[k as int]));
            assert(derefs(pre@).take(k + 1) =~= derefs(pre@).take(k as int).push(*pre@[k as int]));
            assert(derefs(ret_vec@) =~= first + derefs(pre@).take(k + 1));
            k += 1;
        }
        assert(derefs(pre@).take(pre@.len() as int) =~= derefs(pre@));
        if ret_vec.len() == 0 {
            return None;
        }
        Some(ret_vec)
    }

    /// Get the long description, in the language of the user.
    pub fn description(&self, records: &mut Records) -> (text: String)
        requires
            self.wf(),
        ensures
            final(records).table() == old(records).table(),
            (final(records).last(), final(records).scans()) == after_lookup(
                old(records).last(),
                old(records).scans(),
                Lookup::Desc(self.node().desc_file),
            ),
            text@ == match final(records).current() {
                Some(r) => r.description@,
                None => Seq::empty(),
            },
    {
        records.lookup(Lookup::Desc(self.cache.package_graph().versions[self.id].desc_file));
        records.description()
    }

    /// Get the short description, in the language of the user.
    pub fn summary(&self, records: &mut Records) -> (text: String)
        requires
            self.wf(),
        ensures
            final(records).table() == old(records).table(),
            (final(records).last(), final(records).scans()) == after_lookup(
                old(records).last(),
                old(records).scans(),
                Lookup::Desc(self.node().desc_file),
            ),
            text@ == match final(records).current() {
                Some(r) => r.summary@,
                None => Seq::empty(),
            },
    {
        records.lookup(Lookup::Desc(self.cache.package_graph().versions[self.id].desc_file));
        records.summary()
    }

    /// Get the hash specified, read from the first file that holds the
    /// version. Where no file holds the version nothing is looked up.
    pub fn hash(&self, records: &mut Records, hash_type: &str) -> (digest: Option<String>)
        requires
            self.wf(),
        ensures
            final(records).table() == old(records).table(),
            self.node().files@.len() == 0 ==> digest.is_none() && final(records).last() == old(records).last()
                && final(records).scans() == old(records).scans(),
            self.node().files@.len() > 0 ==> {
                &&& (final(records).last(), final(records).scans()) == after_lookup(
                    old(records).last(),
                    old(records).scans(),
                    Lookup::VerFile(self.node().files@[0]),
                )
                &&& match digest {
                    Some(d) => final(records).current().is_some() && digest_of(
                        final(records).current().unwrap().hashes@,
                        hash_type@,
                        0,
                    ) == Some(d@),
                    None => final(records).current().is_none() || digest_of(
                        final(records).current().unwrap().hashes@,
                        hash_type@,
                        0,
                    ).is_none(),
                }
            },
    {
        let files = &self.cache.package_graph().versions[self.id].files;
        if files.len() > 0 {
            records.lookup(Lookup::VerFile(files[0]));
            return records.hash_find(hash_type);
        }
        None
    }

    /// Get the sha256 hash; the same as `hash` with `sha256`.
    pub fn sha256(&self, records: &mut Records) -> (digest: Option<String>)
        requires
            self.wf(),
        ensures
            final(records).table() == old(records).table(),
            self.node().files@.len() == 0 ==> digest.is_none() && final(records).last() == old(records).last()
                && final(records).scans() == old(records).scans(),
            self.node().files@.len() > 0 ==> {
                &&& (final(records).last(), final(records).scans()) == after_lookup(
                    old(records).last(),
                    old(records).scans(),
                    Lookup::VerFile(self.node().files@[0]),
                )
                &&& match digest {
                    Some(d) => final(records).current().is_some() && digest_of(
                        final(records).current().unwrap().hashes@,
                        "sha256"@,
                        0,
                    ) == Some(d@),
                    None => final(records).current().is_none() || digest_of(
                        final(records).current().unwrap().hashes@,
                        "sha256"@,
                        0,
                    ).is_none(),
                }
            },
    {
        self.hash(records, "sha256")
    }

    /// Get the sha512 hash; the same as `hash` with `sha512`.
    pub fn sha512(&self, records: &mut Records) -> (digest: Option<String>)
        requires
            self.wf(),
        ensures
            final(records).table() == old(records).table(),
            self.node().files@.len() == 0 ==> digest.is_none() && final(records).last() == old(records).last()
                && final(records).scans() == old(records).scans(),
            self.node().files@.len() > 0 ==> {
                &&& (final(records).last(), final(records).scans()) == after_lookup(
                    old(records).last(),
                    old(records).scans(),
                    Lookup::VerFile(self.node().files@[0]),
                )
                &&& match digest {
                    Some(d) => final(records).current().is_some() && digest_of(
                        final(records).current().unwrap().hashes@,
                        "sha512"@,
                        0,
                    ) == Some(d@),
                    None => final(records).current().is_none() || digest_of(
                        final(records).current().unwrap().hashes@,
                        "sha512"@,
                        0,
                    ).is_none(),
                }
            },
    {
        self.hash(records, "sha512")
    }

    /// The locations from which the version can be fetched: those of its
    /// files that do not point into the local file system, in the order of
    /// the files. Each file is looked up in turn.
    pub fn uris(&self, records: &mut Records) -> (list: Vec<String>)
        requires
            self.wf(),
        ensures
            final(records).table() == old(records).table(),
            (final(records).last(), final(records).scans()) == after_lookups(
                old(records).last(),
                old(records).scans(),
                self.node().files@,
                0,
            ),
            crate::config::strings(list@) == remote_uris(old(records).table(), self.node().files@, 0),
    {
        let files = &self.cache.package_graph().versions[self.id].files;
        let local = to_chars("file:");
        let mut list: Vec<String> = Vec::new();
        let mut k: usize = 0;
        while k < files.len()
            invariant
                files@ == self.node().files@,
                local@ == "file:"@,
                k <= files.len(),
                records.table() == old(records).table(),
                after_lookups(records.last(), records.scans(), files@, k as int) == after_lookups(
                    old(records).last(),
                    old(records).scans(),
                    files@,
                    0,
                ),
                crate::config::strings(list@) + remote_uris(records.table(), files@, k as int) == remote_uris(
                    records.table(),
                    files@,
                    0,
                ),
            decreases files.len() - k,
        {
            records.lookup(Lookup::VerFile(files[k]));
            let uri = records.uri();
            assert(uri@ == uri_of(records.table(), files@[k as int]));
            let chars = to_chars(uri.as_str());
            if !starts_with_exec(&chars, &local) {
                let ghost before = crate::config::strings(list@);
                list.push(uri);
                assert(crate::config::strings(list@) =~= before.push(uri_of(records.table(), files@[k as int])));
                assert(crate::config::strings(list@) + remote_uris(records.table(), files@, k + 1) =~= before
                    + remote_uris(records.table(), files@, k as int));
            }
            k += 1;
        }
        assert(crate::config::strings(list@) =~= crate::config::strings(list@) + remote_uris(
            records.table(),
            files@,
            files@.len() as int,
        ));
        list
    }
}

} // verus!

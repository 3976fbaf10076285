use oma_apt::cache::{Cache, DepCache, PackageSort};
use oma_apt::config::Config;
use oma_apt::graph::{PackageGraph, PkgNode, VerNode};
use oma_apt::package::{BaseDep, DepType, Dependency, Package, Version};
use oma_apt::records::{FileHash, Lookup, Record, Records};
use oma_apt::rules::Policy;

fn pkg(name: &str, arch: &str, versions: Vec<usize>, current: Option<usize>) -> PkgNode {
    PkgNode {
        name: name.to_string(),
        arch: arch.to_string(),
        essential: false,
        current_state: if current.is_some() { 6 } else { 0 },
        inst_state: 0,
        selected_state: if current.is_some() { 1 } else { 0 },
        has_provides: false,
        auto_installed: false,
        versions,
        current,
    }
}

fn ver(pkg: usize, version: &str, depends: Vec<Dependency>) -> VerNode {
    VerNode {
        pkg,
        version: version.to_string(),
        arch: "amd64".to_string(),
        section: "admin".to_string(),
        priority_str: "important".to_string(),
        source_name: "src".to_string(),
        source_version: version.to_string(),
        priority: 500,
        size: 1234,
        installed_size: 5678,
        downloadable: true,
        depends,
        desc_file: 0,
        files: Vec::new(),
    }
}

fn dep(kind: DepType, name: &str, targets: Vec<usize>) -> Dependency {
    Dependency { dep_type: kind, base_deps: vec![BaseDep::new(name, "", "", kind, targets)] }
}

// apt(0): 2.0 (id 0) and 1.0 (id 1, installed); apt:i386(1): 2.0 (id 2); zsh(2): 5.9 (id 3, installed,
// automatic); virtual(3): no version; bash(4): 5.2 (id 4, installed).
fn sample() -> PackageGraph {
    let mut zsh = pkg("zsh", "amd64", vec![3], Some(3));
    zsh.auto_installed = true;
    let mut apt = pkg("apt", "amd64", vec![0, 1], Some(1));
    apt.essential = true;
    let mut virt = pkg("virtual", "amd64", vec![], None);
    virt.has_provides = true;
    let mut v0 = ver(
        0,
        "2.0",
        vec![
            dep(DepType::Depends, "bash", vec![4]),
            dep(DepType::Recommends, "zsh", vec![3]),
            dep(DepType::PreDepends, "libc", vec![]),
            dep(DepType::Depends, "virtual", vec![]),
            dep(DepType::Breaks, "old", vec![]),
        ],
    );
    v0.desc_file = 1;
    v0.files = vec![2, 3, 0];
    PackageGraph {
        native_arch: "amd64".to_string(),
        packages: vec![apt, pkg("apt", "i386", vec![2], None), zsh, virt, pkg("bash", "amd64", vec![4], Some(4))],
        versions: vec![v0, ver(0, "1.0", vec![]), ver(1, "2.0", vec![]), ver(2, "5.9", vec![]), ver(4, "5.2", vec![])],
    }
}

fn cache() -> Cache {
    Cache::new(sample(), &Config::new()).unwrap()
}

fn policy() -> Policy {
    Policy { install_recommends: true, install_suggests: false, remove_essential: false }
}

#[test]
fn a_cache_refuses_a_graph_that_is_not_in_order() {
    let mut g = sample();
    g.versions[4].pkg = 9;
    assert!(Cache::new(g, &Config::new()).is_none());
    let mut g = sample();
    g.packages[0].versions = vec![1, 0];
    assert!(DepCache::new(g, policy()).is_none());
    assert!(DepCache::new(sample(), policy()).is_some());
}

#[test]
fn get_finds_packages_by_name_and_architecture() {
    let c = cache();
    assert_eq!(c.get("apt").unwrap().id(), 0);
    assert_eq!(c.get("apt:i386").unwrap().id(), 1);
    assert_eq!(c.get("apt:amd64").unwrap().id(), 0);
    assert_eq!(c.get("apt:i386:any").unwrap().id(), 1);
    assert_eq!(c.get("apt:").unwrap().id(), 0);
    assert_eq!(c.get("bash").unwrap().id(), 4);
    assert!(c.get("apt:arm64").is_none());
    assert!(c.get("nothing").is_none());
    assert!(c.get("").is_none());
    assert!(c.get("Apt").is_none());
}

#[test]
fn package_handles_read_the_graph() {
    let c = cache();
    let apt = c.get("apt").unwrap();
    assert_eq!(apt.name(), "apt");
    assert_eq!(apt.fullname(true), "apt");
    assert_eq!(apt.fullname(false), "apt:amd64");
    assert_eq!(apt.arch(), "amd64");
    assert!(apt.essential());
    assert!(apt.has_versions());
    assert!(!apt.has_provides());
    assert!(apt.is_installed());
    assert_eq!(apt.current_state(), 6);
    assert_eq!(apt.inst_state(), 0);
    assert_eq!(apt.selected_state(), 1);
    assert_eq!(apt.installed().unwrap().version(), "1.0");
    assert_eq!(apt.candidate().unwrap().version(), "2.0");
    let versions: Vec<String> = apt.versions().iter().map(|v| v.version()).collect();
    assert_eq!(versions, vec!["2.0", "1.0"]);
    // every version of the graph is among those of its package
    for id in 0..5 {
        let v = Version::new(&c, id).unwrap();
        assert!(v.parent().versions().iter().any(|w| w.id() == v.id()));
    }
    let foreign = c.get("apt:i386").unwrap();
    assert_eq!(foreign.name(), "apt:i386");
    assert_eq!(foreign.fullname(true), "apt:i386");
    assert_eq!(foreign.fullname(false), "apt:i386");
    assert!(!foreign.is_installed());
    assert!(foreign.installed().is_none());
    let virt = c.get("virtual").unwrap();
    assert!(!virt.has_versions());
    assert!(virt.has_provides());
    assert!(virt.candidate().is_none());
    assert!(virt.versions().is_empty());
    assert!(Package::new(&c, 4).is_some());
    assert!(Package::new(&c, 5).is_none());
    assert_eq!(
        apt.describe(),
        "Package< name: apt, arch: amd64, id: 0, essential: true, states: [curr: 6, inst 0, sel 1], virtual: false, provides: false>"
    );
    assert_eq!(
        virt.describe(),
        "Package< name: virtual, arch: amd64, id: 3, essential: false, states: [curr: 0, inst 0, sel 0], virtual: true, provides: true>"
    );
}

#[test]
fn package_handles_read_the_overlay() {
    let mut c = cache();
    {
        let apt = c.get("apt").unwrap();
        assert!(apt.is_upgradable());
        assert!(apt.marked_keep());
        assert!(!apt.marked_upgrade() && !apt.marked_install() && !apt.marked_delete());
        assert!(!apt.marked_downgrade() && !apt.marked_reinstall());
        assert!(!apt.is_now_broken() && !apt.is_inst_broken());
        assert!(!apt.is_auto_installed() && !apt.is_garbage() && !apt.is_auto_removable());
        let zsh = c.get("zsh").unwrap();
        assert!(zsh.is_auto_installed());
        assert!(zsh.is_garbage());
        assert!(zsh.is_auto_removable());
        assert!(!zsh.is_upgradable());
    }
    // the overlay is built by the first change
    assert!(c.dep_cache().is_auto_removable(2));
    let mut overlay = c.take();
    let sweeps = overlay.sweep_count();
    assert!(overlay.mark_install(c.package_graph(), 0, true, true));
    assert!(overlay.mark_install(c.package_graph(), 1, true, true));
    overlay.mark_reinstall(c.package_graph(), 4, true);
    c.restore(overlay);
    let apt = c.get("apt").unwrap();
    assert!(apt.marked_upgrade());
    assert!(!apt.marked_keep());
    // apt 2.0 depends on packages that have nothing to offer
    assert!(apt.is_inst_broken());
    assert!(!apt.is_now_broken());
    // and recommends zsh, which is kept alive by that
    let zsh = c.get("zsh").unwrap();
    assert!(!zsh.is_garbage());
    assert!(!zsh.is_auto_removable());
    assert!(c.get("apt:i386").unwrap().marked_install());
    assert!(c.get("bash").unwrap().marked_reinstall());
    assert_eq!(c.dep_cache().candidate_version(0), Some(0));
    assert_eq!(c.dep_cache().candidate_version(9), None);
    // what was handed out and put back is the same overlay
    let overlay = c.take();
    assert_eq!(overlay.sweep_count(), sweeps + 3);
    c.restore(overlay);
    // clearing drops every mark
    c.clear();
    let apt = c.get("apt").unwrap();
    assert!(apt.marked_keep());
    assert!(!apt.is_inst_broken());
    assert!(c.get("zsh").unwrap().is_garbage());
    assert!(!c.get("apt:i386").unwrap().marked_install());
}

#[test]
fn the_overlay_is_built_once_and_kept() {
    let mut d = DepCache::new(sample(), policy()).unwrap();
    assert!(d.marked_keep(0));
    d.init();
    assert!(d.marked_keep(0));
    assert!(d.is_upgradable(0));
    let mut overlay = d.take();
    assert_eq!(overlay.sweep_count(), 1);
    let g = sample();
    overlay.mark_delete(&g, 4, true);
    d.restore(overlay);
    assert!(d.marked_delete(4));
    assert!(!d.marked_keep(4));
    assert!(!d.marked_install(4) && !d.marked_upgrade(4) && !d.marked_downgrade(4) && !d.marked_reinstall(4));
    assert!(!d.is_now_broken(4) && !d.is_inst_broken(4));
    d.init();
    assert!(d.marked_delete(4));
    let overlay = d.take();
    assert_eq!(overlay.sweep_count(), 2);
    // taken out, the state is the one on disk until something is put back
    assert!(d.marked_keep(4));
    d.restore(overlay);
    assert!(d.marked_delete(4));
    d.clear();
    assert!(d.marked_keep(4));
    assert!(!d.is_auto_installed(0));
    assert!(d.is_auto_installed(2));
    assert!(d.is_garbage(2));
    assert!(!d.is_garbage(7));
}

#[test]
fn the_policy_comes_from_the_configuration() {
    // zsh hangs on a recommendation of the installed apt
    let mut g = sample();
    g.versions[1].depends = vec![dep(DepType::Recommends, "zsh", vec![3])];
    let mut config = Config::new();
    let c = Cache::new(g, &config).unwrap();
    assert!(!c.get("zsh").unwrap().is_garbage());
    config.set("APT::Install-Recommends", "false");
    let mut g = sample();
    g.versions[1].depends = vec![dep(DepType::Recommends, "zsh", vec![3])];
    let c = Cache::new(g, &config).unwrap();
    assert!(c.get("zsh").unwrap().is_garbage());
    // essential packages are protected unless the configuration says otherwise
    let mut c = cache();
    let mut overlay = c.take();
    assert!(!overlay.mark_delete(c.package_graph(), 0, false));
    c.restore(overlay);
    config.set("APT::Get::Allow-Remove-Essential", "yes");
    let mut c = Cache::new(sample(), &config).unwrap();
    let mut overlay = c.take();
    assert!(overlay.mark_delete(c.package_graph(), 0, false));
    c.restore(overlay);
    assert!(c.get("apt").unwrap().marked_delete());
}

fn ids(list: &Vec<Package<'_>>) -> Vec<u32> {
    list.iter().map(|p| p.id()).collect()
}

#[test]
fn listings() {
    let c = cache();
    let all = PackageSort::default();
    assert_eq!(ids(&c.packages(&all)), vec![0, 1, 2, 4]);
    assert_eq!(ids(&c.packages(&all.virtual_pkgs(true))), vec![0, 1, 2, 3, 4]);
    assert_eq!(ids(&c.packages(&all.installed(true))), vec![0, 2, 4]);
    assert_eq!(ids(&c.packages(&all.upgradable(true))), vec![0]);
    assert_eq!(ids(&c.packages(&all.auto_installed(true))), vec![2]);
    assert_eq!(ids(&c.packages(&all.auto_removable(true))), vec![2]);
    assert_eq!(ids(&c.packages(&all.upgradable(true).auto_installed(true))), Vec::<u32>::new());
    assert_eq!(ids(&c.packages(&all.installed(true).virtual_pkgs(true))), vec![0, 2, 4]);
    assert!(c.sort_package(3, &all.virtual_pkgs(true)));
    assert!(!c.sort_package(3, &all));
    // sorted by name: apt, apt:i386, bash, virtual, zsh
    assert_eq!(ids(&c.sorted(&all.virtual_pkgs(true))), vec![0, 1, 4, 3, 2]);
    assert_eq!(ids(&c.sorted(&all.installed(true))), vec![0, 4, 2]);
    assert_eq!(ids(&c.sorted(&all.upgradable(true).installed(false))), vec![0]);
}

#[test]
fn sorted_listings_break_ties_by_index() {
    let g = PackageGraph {
        native_arch: "amd64".to_string(),
        packages: vec![
            pkg("b", "amd64", vec![0], None),
            pkg("ab", "amd64", vec![1], None),
            pkg("a", "amd64", vec![2], None),
            pkg("b", "amd64", vec![3], None),
            pkg("B", "amd64", vec![4], None),
            pkg("a", "arm64", vec![5], None),
        ],
        versions: (0..6).map(|p| ver(p, "1", vec![])).collect(),
    };
    let c = Cache::new(g, &Config::new()).unwrap();
    let names: Vec<String> = c.sorted(&PackageSort::default()).iter().map(|p| p.name()).collect();
    assert_eq!(names, vec!["B", "a", "a:arm64", "ab", "b", "b"]);
    assert_eq!(ids(&c.sorted(&PackageSort::default())), vec![4, 2, 5, 1, 0, 3]);
}

#[test]
fn package_sort_switches() {
    let sort = PackageSort::default();
    assert_eq!(
        sort,
        PackageSort { upgradable: false, virtual_pkgs: false, installed: false, auto_installed: false, auto_removable: false }
    );
    let sort = sort.upgradable(true).virtual_pkgs(true).installed(true).auto_installed(true).auto_removable(true);
    assert_eq!(
        sort,
        PackageSort { upgradable: true, virtual_pkgs: true, installed: true, auto_installed: true, auto_removable: true }
    );
    assert_eq!(sort.installed(false).installed, false);
    assert_eq!(sort.installed(false).upgradable, true);
}

#[test]
fn version_handles_read_the_graph() {
    let c = cache();
    let v = c.get("apt").unwrap().candidate().unwrap();
    assert_eq!(v.pkgname(), "apt");
    assert_eq!(v.version(), "2.0");
    assert_eq!(v.arch(), "amd64");
    assert_eq!(v.section(), "admin");
    assert_eq!(v.priority_str(), "important");
    assert_eq!(v.source_name(), "src");
    assert_eq!(v.source_version(), "2.0");
    assert_eq!(v.priority(), 500);
    assert_eq!(v.size(), 1234);
    assert_eq!(v.installed_size(), 5678);
    assert_eq!(v.id(), 0);
    assert!(v.downloadable());
    assert!(!v.is_installed());
    assert_eq!(v.parent().id(), 0);
    assert!(c.get("apt").unwrap().installed().unwrap().is_installed());
    assert!(Version::new(&c, 4).is_some());
    assert!(Version::new(&c, 5).is_none());
    assert_eq!(
        v.describe_with("1.23 kB", "5.68 kB"),
        "apt: Version 2.0 <ID: 0, arch: amd64, size: 1.23 kB, installed_size: 5.68 kB, section: admin Priority important at 500, downloadable: true>"
    );
}

fn names(list: &Vec<&Dependency>) -> Vec<String> {
    list.iter().map(|d| d.first().name().clone()).collect()
}

#[test]
fn dependencies_by_kind() {
    let c = cache();
    let v = c.get("apt").unwrap().candidate().unwrap();
    assert_eq!(names(&v.get_depends("Depends").unwrap()), vec!["bash", "virtual"]);
    assert_eq!(names(&v.get_depends("PreDepends").unwrap()), vec!["libc"]);
    assert_eq!(names(&v.get_depends("Breaks").unwrap()), vec!["old"]);
    assert!(v.get_depends("Conflicts").is_none());
    assert!(v.get_depends("Nonsense").is_none());
    assert_eq!(names(&v.dependencies().unwrap()), vec!["bash", "virtual", "libc"]);
    assert_eq!(names(&v.recommended().unwrap()), vec!["zsh"]);
    assert!(v.suggests().is_none());
    assert!(v.enhances().is_none());
    let map = v.depends_map();
    assert_eq!(map.len(), 9);
    assert_eq!(names(&map[0]), vec!["bash", "virtual"]);
    assert_eq!(names(&map[1]), vec!["libc"]);
    assert_eq!(names(&map[3]), vec!["zsh"]);
    assert_eq!(names(&map[7]), vec!["old"]);
    assert!(map[2].is_empty() && map[4].is_empty() && map[5].is_empty() && map[6].is_empty() && map[8].is_empty());
    assert_eq!(names(&v.depends_of(DepType::Recommends)), vec!["zsh"]);
    let bare = c.get("bash").unwrap().candidate().unwrap();
    assert!(bare.dependencies().is_none());
    assert!(bare.get_depends("Depends").is_none());
}

#[test]
fn dependencies_in_words() {
    let b = BaseDep::new("libc6", ">=", "2.31", DepType::Depends, vec![]);
    assert_eq!(b.describe(), "BaseDep <Name: libc6, Version: 2.31, Comp: >=, Type: Depends>");
    let single = Dependency { dep_type: DepType::Depends, base_deps: vec![b] };
    assert_eq!(
        single.describe(),
        "Dependency[\n    BaseDep <Name: libc6, Version: 2.31, Comp: >=, Type: Depends>,\n]"
    );
    let or = Dependency {
        dep_type: DepType::Conflicts,
        base_deps: vec![
            BaseDep::new("a", "", "", DepType::Conflicts, vec![]),
            BaseDep::new("b", "<<", "3", DepType::Conflicts, vec![]),
        ],
    };
    assert_eq!(
        or.describe(),
        "Or Dependencies[\n    BaseDep <Name: a, Version: , Comp: , Type: Conflicts>,\n    BaseDep <Name: b, Version: 3, Comp: <<, Type: Conflicts>,\n]"
    );
    let empty = Dependency { dep_type: DepType::Depends, base_deps: vec![] };
    assert_eq!(empty.describe(), "Dependency[\n]");
}

fn records() -> Records {
    let rec = |description: &str, summary: &str, uri: &str, hashes: Vec<(&str, &str)>| Record {
        description: description.to_string(),
        summary: summary.to_string(),
        uri: uri.to_string(),
        hashes: hashes
            .into_iter()
            .map(|(a, d)| FileHash { algorithm: a.to_string(), digest: d.to_string() })
            .collect(),
    };
    Records::new(vec![
        rec("long zero", "zero", "file:/var/lib/dpkg/status", vec![]),
        rec("A long description", "short", "http://deb.example/pool/apt_2.0.deb", vec![]),
        rec("", "", "https://mirror.example/apt_2.0.deb", vec![("MD5Sum", "md5"), ("SHA256", "abc"), ("sha256", "second")]),
        rec("", "", "cdrom:[disc]/apt_2.0.deb", vec![("SHA512", "def")]),
    ])
}

#[test]
fn lookups_are_remembered() {
    let mut r = records();
    assert_eq!(r.scan_count(), 0);
    assert_eq!(r.description(), "");
    assert_eq!(r.summary(), "");
    assert_eq!(r.uri(), "");
    assert_eq!(r.hash_find("sha256"), None);
    r.lookup(Lookup::Desc(1));
    assert_eq!(r.scan_count(), 1);
    assert_eq!(r.description(), "A long description");
    assert_eq!(r.summary(), "short");
    // the same lookup again does not scan again
    r.lookup(Lookup::Desc(1));
    r.lookup(Lookup::Desc(1));
    assert_eq!(r.scan_count(), 1);
    // another kind of record under the same key does
    r.lookup(Lookup::VerFile(1));
    assert_eq!(r.scan_count(), 2);
    assert_eq!(r.uri(), "http://deb.example/pool/apt_2.0.deb");
    r.lookup(Lookup::VerFile(2));
    assert_eq!(r.scan_count(), 3);
    assert_eq!(r.hash_find("sha256"), Some("abc".to_string()));
    assert_eq!(r.hash_find("SHA256"), Some("abc".to_string()));
    assert_eq!(r.hash_find("md5sum"), Some("md5".to_string()));
    assert_eq!(r.hash_find("sha512"), None);
    // a key that the table does not hold
    r.lookup(Lookup::VerFile(9));
    assert_eq!(r.scan_count(), 4);
    assert_eq!(r.uri(), "");
    assert_eq!(r.hash_find("sha256"), None);
}

#[test]
fn versions_read_the_records() {
    let c = cache();
    let mut r = records();
    let v = c.get("apt").unwrap().candidate().unwrap();
    assert_eq!(v.description(&mut r), "A long description");
    assert_eq!(v.summary(&mut r), "short");
    assert_eq!(r.scan_count(), 1);
    assert_eq!(v.sha256(&mut r), Some("abc".to_string()));
    assert_eq!(v.hash(&mut r, "md5sum"), Some("md5".to_string()));
    assert_eq!(v.sha512(&mut r), None);
    assert_eq!(r.scan_count(), 2);
    assert_eq!(
        v.uris(&mut r),
        vec!["https://mirror.example/apt_2.0.deb".to_string(), "cdrom:[disc]/apt_2.0.deb".to_string()]
    );
    // the first file was looked up already; the two others are scanned
    assert_eq!(r.scan_count(), 4);
    // a version without files looks nothing up
    let bare = c.get("bash").unwrap().candidate().unwrap();
    assert_eq!(bare.sha256(&mut r), None);
    assert!(bare.uris(&mut r).is_empty());
    assert_eq!(r.scan_count(), 4);
    assert_eq!(bare.description(&mut r), "long zero");
    assert_eq!(r.scan_count(), 5);
}

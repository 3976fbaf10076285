use oma_apt::depcache::{OperationProgress, PkgDepCache};
use oma_apt::graph::{PackageGraph, PkgNode, VerNode};
use oma_apt::package::{BaseDep, DepType, Dependency};
use oma_apt::rules::{Policy, SelectedState};
use oma_apt::upgrade::ResolverError;

fn policy() -> Policy {
    Policy { install_recommends: true, install_suggests: false, remove_essential: false }
}

fn pkg(name: &str, versions: Vec<usize>, current: Option<usize>) -> PkgNode {
    PkgNode {
        name: name.to_string(),
        arch: "amd64".to_string(),
        essential: false,
        current_state: if current.is_some() { 6 } else { 0 },
        inst_state: 0,
        selected_state: if current.is_some() { 1 } else { 0 },
        has_provides: false,
        auto_installed: false,
        versions,
        current,
    }
}

fn ver(pkg: usize, version: &str, depends: Vec<Dependency>) -> VerNode {
    VerNode {
        pkg,
        version: version.to_string(),
        arch: "amd64".to_string(),
        section: "misc".to_string(),
        priority_str: "optional".to_string(),
        source_name: String::new(),
        source_version: version.to_string(),
        priority: 500,
        size: 1000,
        installed_size: 4000,
        downloadable: true,
        depends,
        desc_file: 0,
        files: Vec::new(),
    }
}

fn dep(kind: DepType, name: &str, comp: &str, version: &str, targets: Vec<usize>) -> Dependency {
    Dependency { dep_type: kind, base_deps: vec![BaseDep::new(name, comp, version, kind, targets)] }
}

fn graph(packages: Vec<PkgNode>, versions: Vec<VerNode>) -> PackageGraph {
    let g = PackageGraph { native_arch: "amd64".to_string(), packages, versions };
    assert!(g.validate());
    g
}

// X(0) depends on Y (>= 2.0); Y(1) has the versions 2.0 (id 1) and 1.0 (id 2).
fn graph_a() -> PackageGraph {
    graph(
        vec![pkg("X", vec![0], None), pkg("Y", vec![1, 2], None)],
        vec![
            ver(0, "1.0", vec![dep(DepType::Depends, "Y", ">=", "2.0", vec![1])]),
            ver(1, "2.0", vec![]),
            ver(1, "1.0", vec![]),
        ],
    )
}

#[test]
fn a_dependency_is_installed_at_the_wanted_version() {
    let g = graph_a();
    let mut dc = PkgDepCache::new(&g, policy());
    assert!(dc.mark_install(&g, 0, true, true));
    assert!(dc.fix_broken(&g));
    assert_eq!(dc.selected_state(&g, 1), SelectedState::Install);
    assert_eq!(dc.install_version(&g, 1), Some(1));
    assert_eq!(g.versions[dc.install_version(&g, 1).unwrap()].version, "2.0");
    assert!(dc.marked_install(&g, 0));
    assert!(dc.marked_install(&g, 1));
    assert!(dc.is_auto_installed(&g, 1));
    assert!(!dc.is_auto_installed(&g, 0));
    assert_eq!(dc.broken_count(&g), 0);
}

#[test]
fn mark_install_without_dependencies_leaves_the_package_broken() {
    let g = graph_a();
    let mut dc = PkgDepCache::new(&g, policy());
    assert!(dc.mark_install(&g, 0, false, true));
    assert!(dc.is_inst_broken(&g, 0));
    assert!(!dc.is_now_broken(&g, 0));
    assert_eq!(dc.broken_count(&g), 1);
    assert!(!dc.marked_install(&g, 1));
    // the resolver pulls the dependency in
    assert!(dc.fix_broken(&g));
    assert_eq!(dc.install_version(&g, 1), Some(1));
    assert_eq!(dc.broken_count(&g), 0);
}

// X(0) conflicts with Z(1).
fn graph_b() -> PackageGraph {
    graph(
        vec![pkg("X", vec![0], None), pkg("Z", vec![1], None)],
        vec![ver(0, "1.0", vec![dep(DepType::Conflicts, "Z", "", "", vec![1])]), ver(1, "1.0", vec![])],
    )
}

#[test]
fn a_conflict_between_two_wanted_packages_stays_broken() {
    let g = graph_b();
    let mut dc = PkgDepCache::new(&g, policy());
    assert!(dc.mark_install(&g, 0, true, true));
    assert!(dc.mark_install(&g, 1, true, true));
    assert!(!dc.fix_broken(&g));
    assert!(dc.is_inst_broken(&g, 0) || dc.is_inst_broken(&g, 1));
    assert!(dc.is_inst_broken(&g, 0));
    assert_eq!(dc.broken_count(&g), 1);
    assert_eq!(dc.conflict_count(&g), 1);
    // both stay marked
    assert!(dc.marked_install(&g, 0));
    assert!(dc.marked_install(&g, 1));
}

// A(0): 2.0 (id 0, no dependency) and 1.0 (id 1, installed, depends on B);
// B(1): 1.0 (id 2, installed, automatic); C(2): 1.0 (id 3, installed, automatic).
fn graph_c() -> PackageGraph {
    let mut b = pkg("B", vec![2], Some(2));
    b.auto_installed = true;
    let mut c = pkg("C", vec![3], Some(3));
    c.auto_installed = true;
    graph(
        vec![pkg("A", vec![0, 1], Some(1)), b, c],
        vec![
            ver(0, "2.0", vec![]),
            ver(0, "1.0", vec![dep(DepType::Depends, "B", "", "", vec![2])]),
            ver(1, "1.0", vec![]),
            ver(2, "1.0", vec![]),
        ],
    )
}

#[test]
fn a_dropped_dependency_makes_garbage() {
    let g = graph_c();
    let mut dc = PkgDepCache::new(&g, policy());
    assert!(!dc.is_garbage(&g, 1));
    // the upgrade of A drops the dependency on B
    assert!(dc.mark_install(&g, 0, true, true));
    assert!(dc.marked_upgrade(&g, 0));
    assert!(dc.is_garbage(&g, 1));
    // garbage is only flagged, not removed
    assert!(!dc.marked_delete(&g, 1));
    assert_eq!(dc.install_version(&g, 1), Some(2));
}

#[test]
fn garbage_is_what_no_root_reaches() {
    // A is a root, B hangs on A, C hangs on nothing.
    let g = graph_c();
    let dc = PkgDepCache::new(&g, policy());
    assert!(!dc.is_garbage(&g, 0));
    assert!(!dc.is_garbage(&g, 1));
    assert!(dc.is_garbage(&g, 2));
    assert!(dc.is_auto_installed(&g, 2));
    // a package installed by hand is never garbage
    let mut dc = dc;
    dc.mark_auto(&g, 2, false);
    assert!(!dc.is_garbage(&g, 2));
    // and an automatic one without a root is
    dc.mark_auto(&g, 0, true);
    assert!(dc.is_garbage(&g, 0));
    assert!(dc.is_garbage(&g, 1));
}

#[test]
fn garbage_follows_chains_and_stops_at_unmet_edges() {
    // R(0) -> M(1) -> L(2); N(3) depends on a version of L that is not in place.
    let mut m = pkg("M", vec![1], Some(1));
    m.auto_installed = true;
    let mut l = pkg("L", vec![2, 3], Some(3));
    l.auto_installed = true;
    let mut n = pkg("N", vec![4], Some(4));
    n.auto_installed = true;
    let mut k = pkg("K", vec![5], Some(5));
    k.auto_installed = true;
    let g = graph(
        vec![pkg("R", vec![0], Some(0)), m, l, n, k],
        vec![
            ver(0, "1", vec![dep(DepType::Depends, "M", "", "", vec![1])]),
            ver(1, "1", vec![dep(DepType::PreDepends, "L", "", "", vec![2, 3])]),
            ver(2, "2", vec![]),
            ver(2, "1", vec![dep(DepType::Suggests, "K", "", "", vec![5])]),
            ver(3, "1", vec![dep(DepType::Depends, "L", "=", "2", vec![2])]),
            ver(4, "1", vec![]),
        ],
    );
    let dc = PkgDepCache::new(&g, policy());
    assert!(!dc.is_garbage(&g, 1));
    assert!(!dc.is_garbage(&g, 2));
    // N is reached by nothing, and K only by a suggestion, which does not count
    assert!(dc.is_garbage(&g, 3));
    assert!(dc.is_garbage(&g, 4));
    let with_suggests = Policy { install_recommends: true, install_suggests: true, remove_essential: false };
    let dc = PkgDepCache::new(&g, with_suggests);
    assert!(!dc.is_garbage(&g, 4));
}

#[test]
fn an_action_group_sweeps_once() {
    let mut packages = Vec::new();
    let mut versions = Vec::new();
    for i in 0..100 {
        packages.push(pkg(&format!("p{}", i), vec![i], None));
        // each package depends on a version that does not exist
        versions.push(ver(i, "1.0", vec![dep(DepType::Depends, "missing", "", "", vec![])]));
    }
    let g = graph(packages, versions);
    let mut dc = PkgDepCache::new(&g, policy());
    assert_eq!(dc.broken_count(&g), 0);
    let before = dc.sweep_count();
    let mut group = dc.action_group();
    assert_eq!(dc.open_groups(), 1);
    for i in 0..100 {
        assert!(dc.mark_install(&g, i, false, true));
    }
    // the flags are stale: nothing was swept
    assert_eq!(dc.sweep_count(), before);
    assert_eq!(dc.broken_count(&g), 0);
    group.release(&mut dc, &g);
    assert_eq!(dc.open_groups(), 0);
    assert_eq!(dc.sweep_count(), before + 1);
    assert_eq!(dc.broken_count(&g), 100);
    assert_eq!(dc.install_count(&g), 100);
    // a second release does nothing
    group.release(&mut dc, &g);
    assert_eq!(dc.sweep_count(), before + 1);
    assert_eq!(dc.open_groups(), 0);
}

#[test]
fn nested_action_groups_sweep_at_the_outermost_release() {
    let g = graph_a();
    let mut dc = PkgDepCache::new(&g, policy());
    let start = dc.sweep_count();
    let mut outer = dc.action_group();
    let mut inner = dc.action_group();
    assert_eq!(dc.open_groups(), 2);
    dc.mark_install(&g, 0, false, true);
    inner.release(&mut dc, &g);
    assert_eq!(dc.open_groups(), 1);
    assert_eq!(dc.sweep_count(), start);
    assert!(!dc.is_inst_broken(&g, 0));
    outer.release(&mut dc, &g);
    assert_eq!(dc.sweep_count(), start + 1);
    assert!(dc.is_inst_broken(&g, 0));
    // without a group every mark sweeps
    dc.mark_keep(&g, 0);
    assert_eq!(dc.sweep_count(), start + 2);
    assert!(!dc.is_inst_broken(&g, 0));
}

#[test]
fn mark_keep_twice_is_mark_keep_once() {
    let g = graph_c();
    let mut dc = PkgDepCache::new(&g, policy());
    let snapshot = |dc: &PkgDepCache| -> Vec<(SelectedState, Option<usize>, bool, bool, bool, bool)> {
        (0..3)
            .map(|p| {
                (
                    dc.selected_state(&g, p),
                    dc.candidate_version(&g, p),
                    dc.is_auto_installed(&g, p),
                    dc.is_garbage(&g, p),
                    dc.is_inst_broken(&g, p),
                    dc.is_now_broken(&g, p),
                )
            })
            .collect()
    };
    let untouched = snapshot(&dc);
    assert!(dc.mark_keep(&g, 1));
    let once = snapshot(&dc);
    assert!(dc.mark_keep(&g, 1));
    let twice = snapshot(&dc);
    assert_eq!(once, twice);
    assert_eq!(untouched, once);
    // after another mark, too
    dc.mark_delete(&g, 0, false);
    assert!(dc.mark_keep(&g, 0));
    let once = snapshot(&dc);
    assert!(dc.mark_keep(&g, 0));
    assert_eq!(once, snapshot(&dc));
    assert_eq!(dc.selected_state(&g, 0), SelectedState::Keep);
    // a package that is no package
    assert!(!dc.mark_keep(&g, 3));
}

#[test]
fn mark_keep_of_a_package_that_is_not_installed_is_unknown() {
    let g = graph_a();
    let mut dc = PkgDepCache::new(&g, policy());
    dc.mark_install(&g, 0, false, true);
    assert_eq!(dc.selected_state(&g, 0), SelectedState::Install);
    assert!(dc.mark_keep(&g, 0));
    assert_eq!(dc.selected_state(&g, 0), SelectedState::Unknown);
    assert!(dc.marked_keep(&g, 0));
    assert_eq!(dc.install_version(&g, 0), None);
}

#[test]
fn install_marked_packages_have_a_candidate_of_their_own() {
    let g = graph_a();
    let mut dc = PkgDepCache::new(&g, policy());
    dc.mark_install(&g, 0, true, false);
    for p in 0..2 {
        if dc.selected_state(&g, p) == SelectedState::Install {
            let v = dc.candidate_version(&g, p).unwrap();
            assert_eq!(g.versions[v].pkg, p);
        }
    }
    assert!(dc.marked_install(&g, 0) && dc.marked_install(&g, 1));
    assert!(dc.is_auto_installed(&g, 0));
}

#[test]
fn mark_install_refuses_what_cannot_be_installed() {
    // V(0) has no version; H(1) is held; N(2) has only a forbidden version.
    let mut held = pkg("H", vec![0], None);
    held.selected_state = 2;
    let mut forbidden = ver(2, "1.0", vec![]);
    forbidden.priority = -1;
    let g = graph(
        vec![pkg("V", vec![], None), held, pkg("N", vec![1], None)],
        vec![ver(1, "1.0", vec![]), forbidden],
    );
    let mut dc = PkgDepCache::new(&g, policy());
    let sweeps = dc.sweep_count();
    assert!(!dc.mark_install(&g, 0, true, true));
    assert!(!dc.mark_install(&g, 1, true, true));
    assert!(!dc.mark_install(&g, 2, true, true));
    assert!(!dc.mark_install(&g, 7, true, true));
    assert_eq!(dc.candidate_version(&g, 0), None);
    assert_eq!(dc.candidate_version(&g, 1), Some(0));
    assert_eq!(dc.candidate_version(&g, 2), None);
    assert_eq!(dc.install_count(&g), 0);
    assert_eq!(dc.sweep_count(), sweeps);
    // an explicit candidate overrides the pin
    dc.set_candidate_version(&g, 1);
    assert!(dc.mark_install(&g, 2, true, true));
    assert!(dc.marked_install(&g, 2));
}

#[test]
fn mark_install_of_a_held_package() {
    // at(0) is held and installed at its candidate; behind(1) is held and installed at an
    // older version; away(2) is held and not installed
    let mut at = pkg("at", vec![0], Some(0));
    at.selected_state = oma_apt::graph::SELECTED_HOLD;
    let mut behind = pkg("behind", vec![1, 2], Some(2));
    behind.selected_state = 2;
    let mut away = pkg("away", vec![3], None);
    away.selected_state = 2;
    assert!(at.is_held() && behind.is_held() && away.is_held());
    assert!(!pkg("free", vec![], None).is_held());
    let g = graph(
        vec![at, behind, away],
        vec![ver(0, "1", vec![]), ver(1, "2", vec![]), ver(1, "1", vec![]), ver(2, "1", vec![])],
    );
    let mut dc = PkgDepCache::new(&g, policy());
    let sweeps = dc.sweep_count();
    // nothing is left to do: success without a mark
    assert!(dc.mark_install(&g, 0, true, true));
    assert!(!dc.marked_install(&g, 0));
    assert_eq!(dc.selected_state(&g, 0), SelectedState::Keep);
    // refused, and not marked
    assert!(!dc.mark_install(&g, 1, true, true));
    assert_eq!(dc.selected_state(&g, 1), SelectedState::Keep);
    assert!(!dc.marked_upgrade(&g, 1));
    assert!(!dc.mark_install(&g, 2, true, false));
    assert_eq!(dc.selected_state(&g, 2), SelectedState::Unknown);
    assert!(!dc.marked_install(&g, 2));
    assert_eq!(dc.install_count(&g), 0);
    assert_eq!(dc.sweep_count(), sweeps);
    // a held package is not pulled in for the sake of another either
    let mut lib = pkg("lib", vec![1], None);
    lib.selected_state = 2;
    let g = graph(
        vec![pkg("app", vec![0], None), lib],
        vec![ver(0, "1", vec![dep(DepType::Depends, "lib", "", "", vec![1])]), ver(1, "1", vec![])],
    );
    let mut dc = PkgDepCache::new(&g, policy());
    assert!(dc.mark_install(&g, 0, true, true));
    assert!(!dc.marked_install(&g, 1));
    assert!(!dc.fix_broken(&g));
    assert!(!dc.marked_install(&g, 1));
    assert!(dc.is_inst_broken(&g, 0));
}

#[test]
fn mark_install_of_what_is_installed_at_its_candidate_changes_nothing() {
    let g = graph(vec![pkg("A", vec![0], Some(0))], vec![ver(0, "1.0", vec![])]);
    let mut dc = PkgDepCache::new(&g, policy());
    let sweeps = dc.sweep_count();
    assert!(dc.mark_install(&g, 0, true, true));
    assert!(!dc.marked_install(&g, 0));
    assert_eq!(dc.selected_state(&g, 0), SelectedState::Keep);
    assert_eq!(dc.sweep_count(), sweeps);
    assert_eq!(dc.install_count(&g), 0);
    assert_eq!(dc.keep_count(&g), 1);
}

#[test]
fn the_best_version_is_the_highest_priority_then_the_newest() {
    let mut pinned = ver(0, "1.0", vec![]);
    pinned.priority = 990;
    let mut low = ver(0, "3.0", vec![]);
    low.priority = 100;
    let g = graph(
        vec![pkg("A", vec![0, 1, 2], None), pkg("B", vec![3, 4], Some(3))],
        vec![low, ver(0, "2.0", vec![]), pinned, ver(1, "2.0", vec![]), {
            let mut old = ver(1, "1.0", vec![]);
            old.priority = 990;
            old
        }],
    );
    assert_eq!(PkgDepCache::choose_version(&g, 0), Some(2));
    // never a downgrade: the older version of B is not chosen, however high its pin
    assert_eq!(PkgDepCache::choose_version(&g, 1), Some(3));
    let dc = PkgDepCache::new(&g, policy());
    assert_eq!(dc.candidate_version(&g, 0), Some(2));
    assert!(!dc.is_upgradable(&g, 1));
    // equal priorities: the newest
    let g = graph(vec![pkg("A", vec![0, 1], None)], vec![ver(0, "2.0", vec![]), ver(0, "1.0", vec![])]);
    assert_eq!(PkgDepCache::choose_version(&g, 0), Some(0));
}

#[test]
fn or_groups_take_the_first_alternative_that_can_be_installed() {
    // X depends on (V | Y | W): V has no version, Y and W can be installed.
    let group = Dependency {
        dep_type: DepType::Depends,
        base_deps: vec![
            BaseDep::new("V", "", "", DepType::Depends, vec![]),
            BaseDep::new("Y", "", "", DepType::Depends, vec![1]),
            BaseDep::new("W", "", "", DepType::Depends, vec![2]),
        ],
    };
    assert!(group.is_or());
    assert_eq!(group.first().name(), "V");
    let g = graph(
        vec![pkg("X", vec![0], None), pkg("Y", vec![1], None), pkg("W", vec![2], None), pkg("V", vec![], None)],
        vec![ver(0, "1", vec![group]), ver(1, "1", vec![]), ver(2, "1", vec![])],
    );
    let mut dc = PkgDepCache::new(&g, policy());
    assert!(dc.mark_install(&g, 0, true, true));
    assert!(dc.marked_install(&g, 1));
    assert!(!dc.marked_install(&g, 2));
    assert_eq!(dc.broken_count(&g), 0);
}

#[test]
fn dependencies_are_followed_through_chains_and_cycles() {
    // A -> B -> C -> A
    let g = graph(
        vec![pkg("A", vec![0], None), pkg("B", vec![1], None), pkg("C", vec![2], None)],
        vec![
            ver(0, "1", vec![dep(DepType::Depends, "B", "", "", vec![1])]),
            ver(1, "1", vec![dep(DepType::Depends, "C", "", "", vec![2])]),
            ver(2, "1", vec![dep(DepType::Depends, "A", "", "", vec![0])]),
        ],
    );
    let mut dc = PkgDepCache::new(&g, policy());
    assert!(dc.mark_install(&g, 0, true, true));
    assert!(dc.marked_install(&g, 0) && dc.marked_install(&g, 1) && dc.marked_install(&g, 2));
    assert!(!dc.is_auto_installed(&g, 0));
    assert!(dc.is_auto_installed(&g, 1) && dc.is_auto_installed(&g, 2));
    assert_eq!(dc.broken_count(&g), 0);
    assert_eq!(dc.install_count(&g), 3);
    assert!(!dc.is_garbage(&g, 1) && !dc.is_garbage(&g, 2));
}

#[test]
fn fix_broken_never_leaves_more_broken() {
    let g = graph_b();
    let mut dc = PkgDepCache::new(&g, policy());
    dc.mark_install(&g, 0, true, true);
    dc.mark_install(&g, 1, true, true);
    let before = dc.broken_count(&g);
    dc.fix_broken(&g);
    let once = dc.broken_count(&g);
    dc.fix_broken(&g);
    let twice = dc.broken_count(&g);
    assert!(once <= before);
    assert!(twice <= once);
    assert_eq!(twice, 1);
}

#[test]
fn fix_broken_skips_an_alternative_that_would_clash() {
    // X depends on (Y | W); Y conflicts with Z, which the user wants.
    let group = Dependency {
        dep_type: DepType::Depends,
        base_deps: vec![
            BaseDep::new("Y", "", "", DepType::Depends, vec![1]),
            BaseDep::new("W", "", "", DepType::Depends, vec![2]),
        ],
    };
    let g = graph(
        vec![pkg("X", vec![0], None), pkg("Y", vec![1], None), pkg("W", vec![2], None), pkg("Z", vec![3], None)],
        vec![
            ver(0, "1", vec![group]),
            ver(1, "1", vec![dep(DepType::Conflicts, "Z", "", "", vec![3])]),
            ver(2, "1", vec![]),
            ver(3, "1", vec![]),
        ],
    );
    let mut dc = PkgDepCache::new(&g, policy());
    assert!(dc.mark_install(&g, 3, false, true));
    assert!(dc.mark_install(&g, 0, false, true));
    assert_eq!(dc.broken_count(&g), 1);
    assert_eq!(dc.conflict_count(&g), 0);
    assert!(dc.fix_broken(&g));
    assert!(!dc.marked_install(&g, 1));
    assert!(dc.marked_install(&g, 2));
    assert_eq!(dc.conflict_count(&g), 0);
    assert_eq!(dc.broken_count(&g), 0);
}

#[test]
fn fix_broken_reports_what_it_cannot_mend() {
    // X depends on a package without a version
    let g = graph(
        vec![pkg("X", vec![0], None), pkg("Y", vec![1], Some(1))],
        vec![ver(0, "1", vec![dep(DepType::Depends, "gone", "", "", vec![])]), ver(1, "1", vec![])],
    );
    let mut dc = PkgDepCache::new(&g, policy());
    assert!(dc.fix_broken(&g));
    dc.mark_install(&g, 0, true, true);
    assert!(!dc.fix_broken(&g));
    assert!(dc.is_inst_broken(&g, 0));
    assert!(!dc.is_inst_broken(&g, 1));
    assert_eq!(dc.broken_count(&g), 1);
}

#[test]
fn fix_broken_sweeps_inside_an_action_group() {
    let g = graph_a();
    let mut dc = PkgDepCache::new(&g, policy());
    let mut group = dc.action_group();
    dc.mark_install(&g, 0, false, true);
    assert_eq!(dc.broken_count(&g), 0);
    assert!(dc.fix_broken(&g));
    assert!(dc.marked_install(&g, 1));
    assert_eq!(dc.open_groups(), 1);
    group.release(&mut dc, &g);
    assert_eq!(dc.broken_count(&g), 0);
}

#[test]
fn recommends_count_only_where_the_policy_says_so() {
    let g = graph(
        vec![pkg("X", vec![0], None), pkg("Y", vec![1], None)],
        vec![ver(0, "1", vec![dep(DepType::Recommends, "Y", "", "", vec![1])]), ver(1, "1", vec![])],
    );
    let mut dc = PkgDepCache::new(&g, policy());
    dc.mark_install(&g, 0, true, true);
    assert!(dc.marked_install(&g, 1));
    let without = Policy { install_recommends: false, install_suggests: false, remove_essential: false };
    let mut dc = PkgDepCache::new(&g, without);
    dc.mark_install(&g, 0, true, true);
    assert!(!dc.marked_install(&g, 1));
    assert_eq!(dc.broken_count(&g), 0);
}

#[test]
fn mark_delete_protects_essential_packages() {
    let mut base = pkg("base", vec![0], Some(0));
    base.essential = true;
    let g = graph(vec![base, pkg("tool", vec![1], Some(1))], vec![ver(0, "1", vec![]), ver(1, "1", vec![])]);
    let mut dc = PkgDepCache::new(&g, policy());
    assert!(!dc.mark_delete(&g, 0, false));
    assert!(!dc.marked_delete(&g, 0));
    assert!(dc.mark_delete(&g, 1, false));
    assert!(dc.marked_delete(&g, 1));
    assert!(!dc.marked_purge(&g, 1));
    assert_eq!(dc.selected_state(&g, 1), SelectedState::DeInstall);
    assert!(dc.mark_delete(&g, 1, true));
    assert!(dc.marked_purge(&g, 1));
    assert_eq!(dc.selected_state(&g, 1), SelectedState::Purge);
    assert_eq!(dc.install_version(&g, 1), None);
    assert!(!dc.mark_delete(&g, 2, false));
    let allowed = Policy { install_recommends: true, install_suggests: false, remove_essential: true };
    let mut dc = PkgDepCache::new(&g, allowed);
    assert!(dc.mark_delete(&g, 0, false));
    assert!(dc.marked_delete(&g, 0));
}

#[test]
fn removal_breaks_what_depends_on_it() {
    let g = graph(
        vec![pkg("app", vec![0], Some(0)), pkg("lib", vec![1], Some(1))],
        vec![ver(0, "1", vec![dep(DepType::Depends, "lib", "", "", vec![1])]), ver(1, "1", vec![])],
    );
    let mut dc = PkgDepCache::new(&g, policy());
    assert_eq!(dc.broken_count(&g), 0);
    dc.mark_delete(&g, 1, false);
    assert!(dc.is_inst_broken(&g, 0));
    assert!(!dc.is_now_broken(&g, 0));
    assert_eq!(dc.broken_count(&g), 1);
    assert_eq!(dc.delete_count(&g), 1);
    assert_eq!(dc.keep_count(&g), 1);
    // a package marked for removal is not pulled in again
    assert!(!dc.fix_broken(&g));
    assert!(dc.marked_delete(&g, 1));
}

#[test]
fn counts_and_sizes() {
    // up(0): 2.0 (id 0, 300/900) and 1.0 (id 1, installed, 100/500); old(1): installed 1.0 (id 2, 50/7000);
    // new(2): 1.0 (id 3, 10/40); local(3): 1.0 (id 4, cannot be downloaded).
    let sized = |pkg: usize, version: &str, size: u64, installed: u64| {
        let mut v = ver(pkg, version, vec![]);
        v.size = size;
        v.installed_size = installed;
        v
    };
    let mut local = sized(3, "1.0", 77, 88);
    local.downloadable = false;
    let g = graph(
        vec![
            pkg("up", vec![0, 1], Some(1)),
            pkg("old", vec![2], Some(2)),
            pkg("new", vec![3], None),
            pkg("local", vec![4], None),
        ],
        vec![sized(0, "2.0", 300, 900), sized(0, "1.0", 100, 500), sized(1, "1.0", 50, 7000), sized(2, "1.0", 10, 40), local],
    );
    let mut dc = PkgDepCache::new(&g, policy());
    assert_eq!((dc.install_count(&g), dc.delete_count(&g), dc.keep_count(&g)), (0, 0, 2));
    assert_eq!(dc.download_size(&g), 0);
    assert_eq!(dc.disk_size(&g), 0);
    assert!(dc.is_upgradable(&g, 0));
    assert!(!dc.is_upgradable(&g, 1));
    assert!(!dc.is_upgradable(&g, 2));
    dc.mark_install(&g, 0, true, true);
    dc.mark_install(&g, 2, true, true);
    dc.mark_install(&g, 3, true, true);
    assert!(dc.marked_upgrade(&g, 0));
    assert!(!dc.marked_install(&g, 0));
    assert!(!dc.marked_downgrade(&g, 0));
    assert_eq!((dc.install_count(&g), dc.delete_count(&g), dc.keep_count(&g)), (3, 0, 1));
    assert_eq!(dc.download_size(&g), 300 + 10);
    assert_eq!(dc.disk_size(&g), (900 - 500) + 40 + 88);
    dc.mark_delete(&g, 1, false);
    assert_eq!((dc.install_count(&g), dc.delete_count(&g), dc.keep_count(&g)), (3, 1, 0));
    assert_eq!(dc.disk_size(&g), (900 - 500) + 40 + 88 - 7000);
    assert!(dc.disk_size(&g) < 0);
    // marking a package that is not installed for removal removes nothing
    dc.mark_keep(&g, 2);
    dc.mark_delete(&g, 2, false);
    assert_eq!(dc.delete_count(&g), 1);
    assert_eq!(dc.install_count(&g), 2);
}

#[test]
fn sizes_are_held_to_their_range() {
    let mut big = ver(0, "1", vec![]);
    big.size = u64::MAX;
    big.installed_size = u64::MAX;
    let mut big2 = ver(1, "1", vec![]);
    big2.size = 5;
    big2.installed_size = u64::MAX;
    let mut gone = ver(2, "1", vec![]);
    gone.installed_size = u64::MAX;
    let mut gone2 = ver(3, "1", vec![]);
    gone2.installed_size = u64::MAX;
    let g = graph(
        vec![pkg("a", vec![0], None), pkg("b", vec![1], None), pkg("c", vec![2], Some(2)), pkg("d", vec![3], Some(3))],
        vec![big, big2, gone, gone2],
    );
    let mut dc = PkgDepCache::new(&g, policy());
    dc.mark_install(&g, 0, false, true);
    dc.mark_install(&g, 1, false, true);
    assert_eq!(dc.download_size(&g), u64::MAX);
    assert_eq!(dc.disk_size(&g), i64::MAX);
    dc.mark_keep(&g, 0);
    dc.mark_keep(&g, 1);
    dc.mark_delete(&g, 2, false);
    dc.mark_delete(&g, 3, false);
    assert_eq!(dc.disk_size(&g), i64::MIN);
}

#[test]
fn reinstall_and_downgrade() {
    let g = graph(
        vec![pkg("a", vec![0, 1], Some(0)), pkg("b", vec![2], None)],
        vec![ver(0, "2", vec![]), ver(0, "1", vec![]), ver(1, "1", vec![])],
    );
    let mut dc = PkgDepCache::new(&g, policy());
    dc.mark_reinstall(&g, 0, true);
    assert!(dc.marked_reinstall(&g, 0));
    assert_eq!(dc.install_count(&g), 1);
    assert_eq!(dc.keep_count(&g), 0);
    assert_eq!(dc.download_size(&g), 1000);
    assert_eq!(dc.disk_size(&g), 0);
    dc.mark_reinstall(&g, 0, false);
    assert!(!dc.marked_reinstall(&g, 0));
    assert_eq!(dc.keep_count(&g), 1);
    // a package that is not installed cannot be installed again
    dc.mark_reinstall(&g, 1, true);
    assert!(!dc.marked_reinstall(&g, 1));
    assert_eq!(dc.install_count(&g), 0);
    // an explicit candidate may be older
    dc.set_candidate_version(&g, 1);
    assert_eq!(dc.candidate_version(&g, 0), Some(1));
    assert!(!dc.marked_downgrade(&g, 0));
    assert!(dc.mark_install(&g, 0, true, true));
    assert!(dc.marked_downgrade(&g, 0));
    assert!(!dc.marked_upgrade(&g, 0));
    assert_eq!(dc.install_version(&g, 0), Some(1));
    // a version that is no version changes nothing
    dc.set_candidate_version(&g, 9);
    assert_eq!(dc.candidate_version(&g, 0), Some(1));
}

#[test]
fn init_drops_every_mark() {
    let g = graph_a();
    let mut dc = PkgDepCache::new(&g, policy());
    let _group = dc.action_group();
    dc.mark_install(&g, 0, true, true);
    let mut progress = OperationProgress::new();
    assert_eq!(progress.percent(), 0);
    dc.init(&g, &mut progress);
    assert_eq!(progress.reports, vec![100]);
    assert!(progress.done);
    assert_eq!(dc.open_groups(), 0);
    assert_eq!(dc.install_count(&g), 0);
    assert_eq!(dc.selected_state(&g, 0), SelectedState::Unknown);
    assert_eq!(dc.selected_state(&g, 1), SelectedState::Unknown);
    assert!(!dc.is_auto_installed(&g, 1));
}

#[test]
fn a_graph_that_is_not_in_order_is_found_out() {
    let ok = PackageGraph {
        native_arch: "amd64".to_string(),
        packages: vec![pkg("a", vec![0, 1], Some(1))],
        versions: vec![ver(0, "2", vec![]), ver(0, "1", vec![])],
    };
    assert!(ok.validate());
    let mut g = PackageGraph { native_arch: String::new(), packages: vec![pkg("a", vec![1, 0], None)], versions: vec![ver(0, "2", vec![]), ver(0, "1", vec![])] };
    assert!(!g.validate());
    g.packages[0].versions = vec![0, 2];
    assert!(!g.validate());
    g.packages[0].versions = vec![0, 1];
    assert!(g.validate());
    g.packages[0].current = Some(5);
    assert!(!g.validate());
    g.packages[0].current = None;
    g.versions[1].pkg = 3;
    assert!(!g.validate());
    g.versions[1].pkg = 0;
    g.versions[0].depends = vec![dep(DepType::Depends, "x", "", "", vec![2])];
    assert!(!g.validate());
    g.versions[0].depends = vec![Dependency { dep_type: DepType::Depends, base_deps: vec![] }];
    assert!(!g.validate());
    g.versions[0].depends = vec![dep(DepType::Depends, "x", "", "", vec![1])];
    assert!(g.validate());
    // a version of another package in the list
    g.packages.push(pkg("b", vec![1], None));
    assert!(!g.validate());
    // a version that its package does not list
    let mut g = PackageGraph {
        native_arch: String::new(),
        packages: vec![pkg("a", vec![0], None), pkg("b", vec![], None)],
        versions: vec![ver(0, "2", vec![]), ver(0, "1", vec![])],
    };
    assert!(!g.validate());
    g.versions[1].pkg = 1;
    assert!(!g.validate());
    g.packages[1].versions = vec![1];
    assert!(g.validate());
}

// lib(1) 2.0 conflicts with old(2); app(0) 2.0 needs lib 2.0 and the new package extra(3).
fn graph_upgrade_full() -> PackageGraph {
    graph(
        vec![
            pkg("app", vec![0, 1], Some(1)),
            pkg("lib", vec![2, 3], Some(3)),
            pkg("old", vec![4], Some(4)),
            pkg("extra", vec![5], None),
        ],
        vec![
            ver(0, "2.0", vec![dep(DepType::Depends, "lib", ">=", "2.0", vec![2]), dep(DepType::Depends, "extra", "", "", vec![5])]),
            ver(0, "1.0", vec![dep(DepType::Depends, "lib", "", "", vec![2, 3])]),
            ver(1, "2.0", vec![dep(DepType::Conflicts, "old", "", "", vec![4])]),
            ver(1, "1.0", vec![]),
            ver(2, "1.0", vec![]),
            ver(3, "1.0", vec![]),
        ],
    )
}

// the same, but what app 2.0 needs besides lib has no version
fn graph_upgrade() -> PackageGraph {
    let mut g = graph_upgrade_full();
    g.versions[0].depends[1] = dep(DepType::Depends, "extra", "", "", vec![]);
    assert!(g.validate());
    g
}

#[test]
fn full_upgrade_installs_and_removes() {
    let g = graph_upgrade_full();
    let mut dc = PkgDepCache::new(&g, policy());
    let mut progress = OperationProgress::new();
    assert_eq!(dc.full_upgrade(&g, &mut progress), Ok(()));
    assert_eq!(progress.percent(), 100);
    assert_eq!(progress.reports, vec![30, 60, 100]);
    assert!(progress.done);
    assert!(dc.marked_upgrade(&g, 0));
    assert!(dc.marked_upgrade(&g, 1));
    assert!(dc.marked_install(&g, 3));
    assert!(dc.is_auto_installed(&g, 3));
    assert!(!dc.is_auto_installed(&g, 0));
    assert!(dc.marked_delete(&g, 2));
    assert_eq!(dc.broken_count(&g), 0);
    assert_eq!((dc.install_count(&g), dc.delete_count(&g), dc.keep_count(&g)), (3, 1, 0));
}

#[test]
fn safe_upgrade_neither_installs_nor_removes() {
    let g = graph_upgrade_full();
    let mut dc = PkgDepCache::new(&g, policy());
    let mut progress = OperationProgress::new();
    assert_eq!(dc.safe_upgrade(&g, &mut progress), Ok(()));
    assert!(progress.done);
    // app 2.0 needs a new package and lib 2.0: its upgrade would break it, so it stays;
    // lib 2.0 clashes with old, which may not be removed, so it stays too
    assert!(dc.marked_keep(&g, 0));
    assert!(dc.marked_keep(&g, 1));
    assert!(dc.marked_keep(&g, 2));
    assert!(!dc.marked_install(&g, 3));
    assert_eq!(dc.broken_count(&g), 0);
    assert_eq!((dc.install_count(&g), dc.delete_count(&g), dc.keep_count(&g)), (0, 0, 3));
}

#[test]
fn progress_is_reported_stage_by_stage() {
    let g = graph_upgrade_full();
    let mut progress = OperationProgress::new();
    assert!(!progress.done);
    progress.report(10);
    assert_eq!(progress.percent(), 10);
    assert!(!progress.done);
    let mut dc = PkgDepCache::new(&g, policy());
    assert_eq!(dc.safe_upgrade(&g, &mut progress), Ok(()));
    assert_eq!(progress.reports, vec![10, 50, 100]);
    assert!(progress.done);
    assert_eq!(dc.install_upgrade(&g, &mut progress), Ok(()));
    assert_eq!(progress.reports, vec![10, 50, 100, 50, 100]);
    assert_eq!(dc.full_upgrade(&g, &mut progress), Ok(()));
    assert_eq!(progress.reports, vec![10, 50, 100, 50, 100, 30, 60, 100]);
    progress.report(40);
    assert!(!progress.done);
    assert_eq!(progress.percent(), 40);
}

#[test]
fn safe_and_install_upgrade_mark_nothing_for_removal() {
    // as for the full upgrade, but `old` may be in the way or not, and one package is
    // marked for removal by hand before
    for clash in [true, false] {
        for with_new in [false, true] {
            let mut g = graph_upgrade_full();
            if !clash {
                g.versions[2].depends = Vec::new();
            }
            g.packages.push(pkg("gone", vec![6], Some(6)));
            g.versions.push(ver(4, "1.0", vec![]));
            assert!(g.validate());
            let mut dc = PkgDepCache::new(&g, policy());
            assert!(dc.mark_delete(&g, 4, true));
            let mut progress = OperationProgress::new();
            let result = if with_new {
                dc.install_upgrade(&g, &mut progress)
            } else {
                dc.safe_upgrade(&g, &mut progress)
            };
            assert_eq!(result, Ok(()));
            // what was marked for removal stays so, and nothing else is removed
            assert!(dc.marked_purge(&g, 4));
            assert_eq!(dc.delete_count(&g), 1);
            for p in 0..4 {
                assert!(!dc.marked_delete(&g, p));
            }
            for p in 0..3 {
                assert!(dc.install_version(&g, p).is_some());
            }
            if !with_new {
                // the safe upgrade installs nothing new
                assert!(!dc.marked_install(&g, 3));
                assert_eq!(dc.install_version(&g, 3), None);
            }
        }
    }
}

#[test]
fn safe_upgrade_takes_what_is_harmless() {
    let g = graph(
        vec![pkg("a", vec![0, 1], Some(1)), pkg("b", vec![2, 3], Some(3)), pkg("c", vec![4], Some(4))],
        vec![
            ver(0, "2", vec![]),
            ver(0, "1", vec![]),
            ver(1, "2", vec![]),
            ver(1, "1", vec![]),
            ver(2, "1", vec![dep(DepType::Depends, "b", "=", "1", vec![3])]),
        ],
    );
    let mut dc = PkgDepCache::new(&g, policy());
    let mut progress = OperationProgress::new();
    assert_eq!(dc.safe_upgrade(&g, &mut progress), Ok(()));
    assert!(dc.marked_upgrade(&g, 0));
    // the upgrade of b would break c
    assert!(dc.marked_keep(&g, 1));
    assert_eq!(dc.broken_count(&g), 0);
}

#[test]
fn install_upgrade_installs_but_never_removes() {
    let g = graph_upgrade_full();
    let mut dc = PkgDepCache::new(&g, policy());
    let mut progress = OperationProgress::new();
    assert_eq!(dc.install_upgrade(&g, &mut progress), Ok(()));
    assert!(progress.done);
    // lib 2.0 and with it app 2.0 would clash with old: nothing is removed, so they stay
    assert!(dc.marked_keep(&g, 2));
    assert_eq!(dc.delete_count(&g), 0);
    assert_eq!(dc.broken_count(&g), 0);
    // without the clash the upgrade goes through and pulls the new package in
    let mut g = graph_upgrade_full();
    g.versions[2].depends = Vec::new();
    let mut dc = PkgDepCache::new(&g, policy());
    assert_eq!(dc.install_upgrade(&g, &mut progress), Ok(()));
    assert!(dc.marked_upgrade(&g, 0));
    assert!(dc.marked_upgrade(&g, 1));
    assert!(dc.marked_install(&g, 3));
    assert!(dc.marked_keep(&g, 2));
    assert_eq!(dc.broken_count(&g), 0);
}

#[test]
fn full_upgrade_fails_where_an_upgraded_package_stays_broken() {
    // app 2.0 depends on a package without any version
    let g = graph_upgrade();
    let mut dc = PkgDepCache::new(&g, policy());
    let mut progress = OperationProgress::new();
    assert_eq!(dc.full_upgrade(&g, &mut progress), Err(ResolverError { package: 0 }));
    assert!(dc.is_inst_broken(&g, 0));
    assert!(dc.marked_upgrade(&g, 0));
    assert!(progress.done);
}

#[test]
fn upgrades_tolerate_what_was_broken_before() {
    // broken(0) is installed with an unmet dependency and has no newer version
    let g = graph(
        vec![pkg("broken", vec![0], Some(0)), pkg("a", vec![1, 2], Some(2))],
        vec![ver(0, "1", vec![dep(DepType::Depends, "gone", "", "", vec![])]), ver(1, "2", vec![]), ver(1, "1", vec![])],
    );
    let mut dc = PkgDepCache::new(&g, policy());
    assert!(dc.is_now_broken(&g, 0));
    let mut progress = OperationProgress::new();
    assert_eq!(dc.full_upgrade(&g, &mut progress), Ok(()));
    assert!(dc.marked_upgrade(&g, 1));
    assert_eq!(dc.broken_count(&g), 1);
    let mut dc = PkgDepCache::new(&g, policy());
    assert_eq!(dc.safe_upgrade(&g, &mut progress), Ok(()));
    assert!(dc.marked_upgrade(&g, 1));
    let mut dc = PkgDepCache::new(&g, policy());
    assert_eq!(dc.install_upgrade(&g, &mut progress), Ok(()));
    assert!(dc.marked_upgrade(&g, 1));
}

#[test]
fn held_packages_are_not_upgraded() {
    let mut a = pkg("a", vec![0, 1], Some(1));
    a.selected_state = 2;
    let g = graph(vec![a], vec![ver(0, "2", vec![]), ver(0, "1", vec![])]);
    let mut dc = PkgDepCache::new(&g, policy());
    let mut progress = OperationProgress::new();
    assert_eq!(dc.full_upgrade(&g, &mut progress), Ok(()));
    assert!(dc.marked_keep(&g, 0));
    assert!(dc.is_upgradable(&g, 0));
    assert!(!dc.mark_install(&g, 0, true, true));
}

#[test]
fn dependency_kinds() {
    assert_eq!(DepType::parse("Depends"), Some(DepType::Depends));
    assert_eq!(DepType::parse("PreDepends"), Some(DepType::PreDepends));
    assert_eq!(DepType::parse("Enhances"), Some(DepType::Enhances));
    assert_eq!(DepType::parse("depends"), None);
    assert_eq!(DepType::parse(""), None);
    for i in 0..9 {
        let kind = DepType::from_rank(i);
        assert_eq!(DepType::parse(kind.as_str()), Some(kind));
    }
    assert_eq!(DepType::Breaks.as_str(), "Breaks");
    assert!(DepType::Depends.is_positive() && DepType::Suggests.is_positive());
    assert!(DepType::Obsoletes.is_negative() && !DepType::Obsoletes.is_clashing());
    assert!(DepType::Breaks.is_clashing() && DepType::Conflicts.is_clashing());
    assert!(!DepType::Replaces.is_positive() && !DepType::Replaces.is_negative());
    let p = policy();
    assert!(p.is_important(DepType::Depends) && p.is_important(DepType::Breaks));
    assert!(p.is_important(DepType::Recommends) && !p.is_important(DepType::Suggests));
    assert!(!p.is_important(DepType::Replaces) && !p.is_important(DepType::Enhances));
    let b = BaseDep::new("libc6", ">=", "2.31", DepType::Depends, vec![4, 2]);
    assert_eq!(b.name(), "libc6");
    assert_eq!(b.comp(), ">=");
    assert_eq!(b.version(), "2.31");
    assert_eq!(b.dep_type(), DepType::Depends);
    assert_eq!(b.all_targets(), &vec![4, 2]);
    let d = Dependency { dep_type: DepType::Depends, base_deps: vec![b] };
    assert!(!d.is_or());
    assert_eq!(d.first().name(), "libc6");
}

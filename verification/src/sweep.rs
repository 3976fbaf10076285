//! The sweep: from the marks to the flags that follow from them.
//!
//! The packages that are kept alive are found with a worklist, starting at
//! the roots and following the dependencies that are met.
use vstd::prelude::*;
use crate::graph::{base_ok, group_ok, PackageGraph};
use crate::package::{BaseDep, Dependency};
use crate::rules::{
    bases_land, broken_exec, conflicted_exec, edge, group_lands, lands, lemma_closed_holds_reachable,
    lemma_edge_reachable, lemma_root_reachable, live_exec, marks_wf, placed, placed_exec, reachable, root,
    swept, targets_land, version_lands, Flags, Mark, Policy,
};

verus! {

/// The number of entries of `s` that are not set.
pub open spec fn count_false(s: Seq<bool>) -> nat
    decreases s.len(),
{
    if s.len() == 0 {
        0
    } else {
        count_false(s.drop_last()) + if s.last() {
            0nat
        } else {
            1nat
        }
    }
}

proof fn lemma_count_false_set(s: Seq<bool>, i: int)
    requires
        0 <= i < s.len(),
        !s[i],
    ensures
        count_false(s.update(i, true)) + 1 == count_false(s),
    decreases s.len(),
{
    let u = s.update(i, true);
    if i == s.len() - 1 {
        assert(u.drop_last() =~= s.drop_last());
    } else {
        lemma_count_false_set(s.drop_last(), i);
        assert(u.drop_last() =~= s.drop_last().update(i, true));
    }
}

/// How the worklist state may change while the dependencies of one package
/// are followed: packages are only added to those seen, each new one is
/// pushed on the stack, and nothing leaves the stack.
pub open spec fn grown(seen: Seq<bool>, stack: Seq<usize>, seen2: Seq<bool>, stack2: Seq<usize>) -> bool {
    &&& seen2.len() == seen.len()
    &&& forall|p: int| 0 <= p < seen.len() && seen[p] ==> #[trigger] seen2[p]
    &&& stack2.len() >= stack.len()
    &&& forall|i: int| 0 <= i < stack.len() ==> #[trigger] stack2[i] == stack[i]
    &&& forall|i: int|
        stack.len() <= i < stack2.len() ==> (#[trigger] stack2[i]) < seen.len() && seen2[stack2[i] as int]
            && !seen[stack2[i] as int]
    &&& forall|p: int| 0 <= p < seen.len() && #[trigger] seen2[p] && !seen[p] ==> stack2.contains(p as usize)
    &&& count_false(seen2) + stack2.len() == count_false(seen) + stack.len()
}

fn visit_targets(g: &PackageGraph, marks: &Vec<Mark>, b: &BaseDep, seen: &mut Vec<bool>, stack: &mut Vec<usize>)
    requires
        g.wf(),
        marks_wf(g, marks@),
        base_ok(*b, g.nver()),
        old(seen)@.len() == g.npkg(),
    ensures
        grown(old(seen)@, old(stack)@, final(seen)@, final(stack)@),
        forall|p: int|
            0 <= p < g.npkg() && #[trigger] final(seen)@[p] && !old(seen)@[p] ==> targets_land(
                g,
                marks@,
                b@.targets,
                p,
            ),
        forall|q: int|
            0 <= q < g.npkg() && targets_land(g, marks@, b@.targets, q) ==> #[trigger] final(seen)@[q],
{
    let targets = b.all_targets();
    let mut k: usize = 0;
    while k < targets.len()
        invariant
            g.wf(),
            marks_wf(g, marks@),
            base_ok(*b, g.nver()),
            targets@ == b@.targets,
            k <= targets.len(),
            seen@.len() == g.npkg(),
            grown(old(seen)@, old(stack)@, seen@, stack@),
            forall|p: int|
                0 <= p < g.npkg() && #[trigger] seen@[p] && !old(seen)@[p] ==> targets_land(
                    g,
                    marks@,
                    b@.targets,
                    p,
                ),
            forall|m: int, q: int|
                0 <= m < k && 0 <= q < g.npkg() && lands(g, marks@, #[trigger] targets@[m], q)
                    ==> #[trigger] seen@[q],
        decreases targets.len() - k,
    {
        let t = targets[k];
        assert(t == b@.targets[k as int]);
        assert(g.ver_ok(t as int));
        if live_exec(g, marks, false, t) {
            let q = g.versions[t].pkg;
            if !seen[q] {
                let ghost seen1 = seen@;
                let ghost stack1 = stack@;
                seen.set(q, true);
                stack.push(q);
                proof {
                    lemma_count_false_set(seen1, q as int);
                    assert(stack@[stack1.len() as int] == q);
                    assert(lands(g, marks@, b@.targets[k as int], q as int));
                    assert forall|p: int|
                        0 <= p < seen1.len() && #[trigger] seen@[p] && !old(seen)@[p] implies stack@.contains(
                        p as usize,
                    ) by {
                        if p == q {
                            assert(stack@[stack1.len() as int] == q);
                        } else {
                            assert(seen1[p]);
                            let i = choose|i: int| 0 <= i < stack1.len() && stack1[i] == p as usize;
                            assert(stack@[i] == p as usize);
                        }
                    }
                }
            }
        }
        k += 1;
    }
}

fn visit_bases(g: &PackageGraph, marks: &Vec<Mark>, d: &Dependency, seen: &mut Vec<bool>, stack: &mut Vec<usize>)
    requires
        g.wf(),
        marks_wf(g, marks@),
        group_ok(*d, g.nver()),
        old(seen)@.len() == g.npkg(),
    ensures
        grown(old(seen)@, old(stack)@, final(seen)@, final(stack)@),
        forall|p: int|
            0 <= p < g.npkg() && #[trigger] final(seen)@[p] && !old(seen)@[p] ==> bases_land(
                g,
                marks@,
                d.base_deps@,
                p,
            ),
        forall|q: int|
            0 <= q < g.npkg() && bases_land(g, marks@, d.base_deps@, q) ==> #[trigger] final(seen)@[q],
{
    let mut j: usize = 0;
    while j < d.base_deps.len()
        invariant
            g.wf(),
            marks_wf(g, marks@),
            group_ok(*d, g.nver()),
            j <= d.base_deps.len(),
            seen@.len() == g.npkg(),
            grown(old(seen)@, old(stack)@, seen@, stack@),
            forall|p: int|
                0 <= p < g.npkg() && #[trigger] seen@[p] && !old(seen)@[p] ==> bases_land(
                    g,
                    marks@,
                    d.base_deps@,
                    p,
                ),
            forall|m: int, q: int|
                0 <= m < j && 0 <= q < g.npkg() && targets_land(
                    g,
                    marks@,
                    (#[trigger] d.base_deps@[m])@.targets,
                    q,
                ) ==> #[trigger] seen@[q],
        decreases d.base_deps.len() - j,
    {
        let ghost seen1 = seen@;
        let ghost stack1 = stack@;
        visit_targets(g, marks, &d.base_deps[j], seen, stack);
        proof {
            lemma_grown_trans(old(seen)@, old(stack)@, seen1, stack1, seen@, stack@);
            assert forall|p: int| 0 <= p < g.npkg() && #[trigger] seen@[p] && !old(seen)@[p] implies bases_land(
                g,
                marks@,
                d.base_deps@,
                p,
            ) by {
                if !seen1[p] {
                    assert(targets_land(g, marks@, d.base_deps@[j as int]@.targets, p));
                }
            }
        }
        j += 1;
    }
}

fn visit_version(
    g: &PackageGraph,
    pol: &Policy,
    marks: &Vec<Mark>,
    v: usize,
    seen: &mut Vec<bool>,
    stack: &mut Vec<usize>,
)
    requires
        g.wf(),
        marks_wf(g, marks@),
        v < g.nver(),
        old(seen)@.len() == g.npkg(),
    ensures
        grown(old(seen)@, old(stack)@, final(seen)@, final(stack)@),
        forall|p: int|
            0 <= p < g.npkg() && #[trigger] final(seen)@[p] && !old(seen)@[p] ==> version_lands(
                g,
                *pol,
                marks@,
                v as int,
                p,
            ),
        forall|q: int|
            0 <= q < g.npkg() && version_lands(g, *pol, marks@, v as int, q) ==> #[trigger] final(seen)@[q],
{
    assert(g.ver_ok(v as int));
    let node = &g.versions[v];
    let mut i: usize = 0;
    while i < node.depends.len()
        invariant
            g.wf(),
            marks_wf(g, marks@),
            v < g.nver(),
            g.ver_ok(v as int),
            node.depends@ == g.deps(v as int),
            i <= node.depends.len(),
            seen@.len() == g.npkg(),
            grown(old(seen)@, old(stack)@, seen@, stack@),
            forall|p: int|
                0 <= p < g.npkg() && #[trigger] seen@[p] && !old(seen)@[p] ==> version_lands(
                    g,
                    *pol,
                    marks@,
                    v as int,
                    p,
                ),
            forall|m: int, q: int|
                0 <= m < i && 0 <= q < g.npkg() && group_lands(
                    g,
                    *pol,
                    marks@,
                    #[trigger] g.deps(v as int)[m],
                    q,
                ) ==> #[trigger] seen@[q],
        decreases node.depends.len() - i,
    {
        let d = &node.depends[i];
        assert(group_ok(g.deps(v as int)[i as int], g.nver()));
        if pol.is_important(d.dep_type) && d.dep_type.is_positive() {
            let ghost seen1 = seen@;
            let ghost stack1 = stack@;
            visit_bases(g, marks, d, seen, stack);
            proof {
                lemma_grown_trans(old(seen)@, old(stack)@, seen1, stack1, seen@, stack@);
                assert forall|p: int|
                    0 <= p < g.npkg() && #[trigger] seen@[p] && !old(seen)@[p] implies version_lands(
                    g,
                    *pol,
                    marks@,
                    v as int,
                    p,
                ) by {
                    if !seen1[p] {
                        assert(group_lands(g, *pol, marks@, g.deps(v as int)[i as int], p));
                    }
                }
            }
        }
        i += 1;
    }
}

proof fn lemma_grown_trans(
    seen: Seq<bool>,
    stack: Seq<usize>,
    seen1: Seq<bool>,
    stack1: Seq<usize>,
    seen2: Seq<bool>,
    stack2: Seq<usize>,
)
    requires
        grown(seen, stack, seen1, stack1),
        grown(seen1, stack1, seen2, stack2),
    ensures
        grown(seen, stack, seen2, stack2),
{
    assert forall|p: int| 0 <= p < seen.len() && #[trigger] seen2[p] && !seen[p] implies stack2.contains(
        p as usize,
    ) by {
        if seen1[p] {
            let i = choose|i: int| 0 <= i < stack1.len() && stack1[i] == p as usize;
            assert(stack2[i] == p as usize);
        }
    }
    assert forall|i: int| stack.len() <= i < stack2.len() implies (#[trigger] stack2[i]) < seen.len()
        && seen2[stack2[i] as int] && !seen[stack2[i] as int] by {
        if i < stack1.len() {
            assert(stack2[i] == stack1[i]);
        }
    }
}

/// Whether package `p` is wanted for its own sake.
fn root_exec(g: &PackageGraph, marks: &Vec<Mark>, p: usize) -> (yes: bool)
    requires
        g.wf(),
        marks_wf(g, marks@),
        p < g.npkg(),
    ensures
        yes == root(g, marks@, p as int),
{
    placed_exec(g, marks, false, p).is_some() && (!marks[p].auto_installed || g.packages[p].essential)
}

/// For each package, whether something that is wanted keeps it alive.
pub fn kept_alive(g: &PackageGraph, pol: &Policy, marks: &Vec<Mark>) -> (seen: Vec<bool>)
    requires
        g.wf(),
        marks_wf(g, marks@),
    ensures
        seen@.len() == g.npkg(),
        forall|p: int| 0 <= p < g.npkg() ==> #[trigger] seen@[p] == reachable(g, *pol, marks@, p),
{
    let n = g.packages.len();
    let mut seen: Vec<bool> = Vec::new();
    let mut stack: Vec<usize> = Vec::new();
    let mut p: usize = 0;
    while p < n
        invariant
            g.wf(),
            marks_wf(g, marks@),
            n == g.npkg(),
            p <= n,
            seen@.len() == p,
            forall|q: int| 0 <= q < p ==> #[trigger] seen@[q] == root(g, marks@, q),
            forall|q: int| 0 <= q < p && #[trigger] seen@[q] ==> stack@.contains(q as usize),
            forall|i: int| 0 <= i < stack@.len() ==> (#[trigger] stack@[i]) < p && seen@[stack@[i] as int],
        decreases n - p,
    {
        let is_root = root_exec(g, marks, p);
        let ghost stack1 = stack@;
        seen.push(is_root);
        if is_root {
            stack.push(p);
        }
        proof {
            assert forall|q: int| 0 <= q < p + 1 && #[trigger] seen@[q] implies stack@.contains(q as usize) by {
                if q < p {
                    let i = choose|i: int| 0 <= i < stack1.len() && stack1[i] == q as usize;
                    assert(stack@[i] == q as usize);
                } else {
                    assert(stack@[stack1.len() as int] == q as usize);
                }
            }
        }
        p += 1;
    }
    proof {
        assert forall|q: int| 0 <= q < n && #[trigger] seen@[q] implies reachable(g, *pol, marks@, q) by {
            lemma_root_reachable(g, *pol, marks@, q);
        }
    }
    while stack.len() > 0
        invariant
            g.wf(),
            marks_wf(g, marks@),
            n == g.npkg(),
            seen@.len() == n,
            forall|q: int| 0 <= q < n && root(g, marks@, q) ==> #[trigger] seen@[q],
            forall|q: int| 0 <= q < n && #[trigger] seen@[q] ==> reachable(g, *pol, marks@, q),
            forall|i: int| 0 <= i < stack@.len() ==> (#[trigger] stack@[i]) < n && seen@[stack@[i] as int],
            forall|q: int, r: int|
                0 <= q < n && #[trigger] seen@[q] && !stack@.contains(q as usize) && edge(
                    g,
                    *pol,
                    marks@,
                    q,
                    r,
                ) ==> #[trigger] seen@[r],
        decreases count_false(seen@), stack@.len(),
    {
        let ghost seen0 = seen@;
        let ghost stack0 = stack@;
        let cur = stack.pop().unwrap();
        let ghost stack1 = stack@;
        assert(cur == stack0[stack0.len() - 1]);
        assert(forall|i: int| 0 <= i < stack1.len() ==> stack1[i] == stack0[i]);
        match placed_exec(g, marks, false, cur) {
            Some(v) => {
                visit_version(g, pol, marks, v, &mut seen, &mut stack);
            },
            None => {},
        }
        proof {
            assert(grown(seen0, stack1, seen@, stack@)) by {
                if placed(g, marks@, false, cur as int).is_none() {
                    assert(seen@ == seen0 && stack@ == stack1);
                }
            }
            assert forall|q: int| 0 <= q < n && #[trigger] seen@[q] implies reachable(g, *pol, marks@, q) by {
                if !seen0[q] {
                    assert(edge(g, *pol, marks@, cur as int, q));
                    lemma_edge_reachable(g, *pol, marks@, cur as int, q);
                }
            }
            assert forall|q: int, r: int|
                0 <= q < n && #[trigger] seen@[q] && !stack@.contains(q as usize) && edge(
                    g,
                    *pol,
                    marks@,
                    q,
                    r,
                ) implies #[trigger] seen@[r] by {
                if q == cur {
                } else {
                    assert(seen0[q]);
                    if stack0.contains(q as usize) {
                        let i = choose|i: int| 0 <= i < stack0.len() && stack0[i] == q as usize;
                        assert(i < stack1.len());
                        assert(stack@[i] == q as usize);
                    }
                    assert(seen0[r]);
                }
            }
        }
    }
    proof {
        assert forall|q: int| 0 <= q < n && reachable(g, *pol, marks@, q) implies #[trigger] seen@[q] by {
            lemma_closed_holds_reachable(g, *pol, marks@, seen@, q);
        }
    }
    seen
}

/// The flags that follow from the marks.
pub fn sweep(g: &PackageGraph, pol: &Policy, marks: &Vec<Mark>) -> (flags: Vec<Flags>)
    requires
        g.wf(),
        marks_wf(g, marks@),
    ensures
        swept(g, *pol, marks@, flags@),
{
    let alive = kept_alive(g, pol, marks);
    let n = marks.len();
    let mut flags: Vec<Flags> = Vec::new();
    let mut p: usize = 0;
    while p < n
        invariant
            g.wf(),
            marks_wf(g, marks@),
            n == marks@.len(),
            p <= n,
            alive@.len() == n,
            forall|q: int| 0 <= q < n ==> #[trigger] alive@[q] == reachable(g, *pol, marks@, q),
            flags@.len() == p,
            forall|q: int|
                0 <= q < p ==> {
                    &&& (#[trigger] flags@[q]).now_broken == crate::rules::broken(g, *pol, marks@, true, q)
                    &&& flags@[q].inst_broken == crate::rules::broken(g, *pol, marks@, false, q)
                    &&& flags@[q].garbage == crate::rules::garbage(g, *pol, marks@, q)
                    &&& flags@[q].conflicted == crate::rules::conflicted(g, marks@, q)
                },
        decreases n - p,
    {
        flags.push(
            Flags {
                now_broken: broken_exec(g, pol, marks, true, p),
                inst_broken: broken_exec(g, pol, marks, false, p),
                garbage: marks[p].auto_installed && !alive[p],
                conflicted: conflicted_exec(g, marks, p),
            },
        );
        p += 1;
    }
    flags
}

} // verus!

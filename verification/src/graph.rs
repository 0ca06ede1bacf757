//! Dependency graphs: whether the tasks of a pipeline can be put in an order
//! in which every task comes after the tasks it depends on.
//!
//! A graph is a sequence with one entry per task: the places of the tasks
//! that the task depends on.

use crate::models::{Task, TaskView};
use crate::string_map::{distinct_keys, has_key, key_index, lemma_deep_keys, StringMap};
use vstd::prelude::*;

verus! {

/// Every dependency names a task of the graph.
pub open spec fn closed_graph(deps: Seq<Seq<int>>) -> bool {
    forall|i: int, d: int|
        0 <= i < deps.len() && 0 <= d < deps[i].len() ==> 0 <= #[trigger] deps[i][d] < deps.len()
}

/// Task `i` occurs in `order`.
pub open spec fn listed(order: Seq<int>, i: int) -> bool {
    exists|k: int| 0 <= k < order.len() && #[trigger] order[k] == i
}

/// Task `i` occurs in `order` before place `k`.
pub open spec fn listed_before(order: Seq<int>, i: int, k: int) -> bool {
    exists|a: int| 0 <= a < k && a < order.len() && #[trigger] order[a] == i
}

/// `order` lists every task of `deps`, each after all the tasks it depends on.
pub open spec fn is_order(deps: Seq<Seq<int>>, order: Seq<int>) -> bool {
    &&& order.len() == deps.len()
    &&& forall|k: int| 0 <= k < order.len() ==> 0 <= #[trigger] order[k] < deps.len()
    &&& forall|i: int| 0 <= i < deps.len() ==> #[trigger] listed(order, i)
    &&& forall|k: int, d: int|
        0 <= k < order.len() && 0 <= d < deps[order[k]].len() ==> #[trigger] listed_before(
            order,
            deps[order[k]][d],
            k,
        )
}

/// The graph has no cycle: its tasks can be ordered.
pub open spec fn acyclic(deps: Seq<Seq<int>>) -> bool {
    exists|order: Seq<int>| is_order(deps, order)
}

/// The graph as the places in `deps` give it.
pub open spec fn graph_of(deps: Seq<Vec<usize>>) -> Seq<Seq<int>> {
    Seq::new(deps.len(), |i: int| Seq::new(deps[i]@.len(), |d: int| deps[i]@[d] as int))
}

/// The places in `order` as integers.
pub open spec fn places(order: Seq<usize>) -> Seq<int> {
    Seq::new(order.len(), |k: int| order[k] as int)
}

/// How many tasks are not placed.
pub open spec fn unplaced(placed: Seq<bool>) -> nat
    decreases placed.len(),
{
    if placed.len() == 0 {
        0
    } else {
        unplaced(placed.drop_last()) + if placed.last() {
            0nat
        } else {
            1nat
        }
    }
}

/// Task `i` depends on a task that is not placed.
pub open spec fn waits(deps: Seq<Seq<int>>, placed: Seq<bool>, i: int) -> bool {
    exists|d: int|
        0 <= d < deps[i].len() && 0 <= #[trigger] deps[i][d] < placed.len() && !placed[deps[i][d]]
}

/// No unplaced task can be placed: each waits for a task that is unplaced too.
pub open spec fn stuck(deps: Seq<Seq<int>>, placed: Seq<bool>) -> bool {
    forall|i: int| 0 <= i < deps.len() && !#[trigger] placed[i] ==> waits(deps, placed, i)
}

pub proof fn lemma_place_one(placed: Seq<bool>, i: int)
    requires
        0 <= i < placed.len(),
        !placed[i],
    ensures
        unplaced(placed.update(i, true)) == unplaced(placed) - 1,
    decreases placed.len(),
{
    let after = placed.update(i, true);
    if i == placed.len() - 1 {
        assert(after.drop_last() =~= placed.drop_last());
    } else {
        lemma_place_one(placed.drop_last(), i);
        assert(after.drop_last() =~= placed.drop_last().update(i, true));
    }
}

pub proof fn lemma_none_unplaced(placed: Seq<bool>)
    requires
        unplaced(placed) == 0,
    ensures
        forall|i: int| 0 <= i < placed.len() ==> #[trigger] placed[i],
    decreases placed.len(),
{
    if placed.len() > 0 {
        lemma_none_unplaced(placed.drop_last());
        assert forall|i: int| 0 <= i < placed.len() implies #[trigger] placed[i] by {
            if i < placed.len() - 1 {
                assert(placed.drop_last()[i]);
            }
        }
    }
}

pub proof fn lemma_some_unplaced(placed: Seq<bool>) -> (i: int)
    requires
        unplaced(placed) > 0,
    ensures
        0 <= i < placed.len(),
        !placed[i],
    decreases placed.len(),
{
    if !placed.last() {
        placed.len() - 1
    } else {
        lemma_some_unplaced(placed.drop_last())
    }
}

pub proof fn lemma_all_unplaced(placed: Seq<bool>)
    requires
        forall|i: int| 0 <= i < placed.len() ==> !#[trigger] placed[i],
    ensures
        unplaced(placed) == placed.len(),
    decreases placed.len(),
{
    if placed.len() > 0 {
        assert forall|i: int| 0 <= i < placed.drop_last().len() implies !#[trigger] placed.drop_last()[i] by {
            assert(!placed[i]);
        }
        lemma_all_unplaced(placed.drop_last());
    }
}

/// The first place at or before `k` in `order` that holds an unplaced task.
proof fn lemma_first_unplaced(order: Seq<int>, placed: Seq<bool>, k: int) -> (p: int)
    requires
        0 <= k < order.len(),
        forall|a: int| 0 <= a < order.len() ==> 0 <= #[trigger] order[a] < placed.len(),
        !placed[order[k]],
    ensures
        0 <= p <= k,
        !placed[order[p]],
        forall|a: int| 0 <= a < p ==> placed[#[trigger] order[a]],
    decreases k,
{
    if exists|a: int| 0 <= a < k && !placed[#[trigger] order[a]] {
        let a = choose|a: int| 0 <= a < k && !placed[#[trigger] order[a]];
        lemma_first_unplaced(order, placed, a)
    } else {
        k
    }
}

/// Where no unplaced task can be placed and some task is unplaced, the
/// tasks cannot be ordered.
pub proof fn lemma_stuck_has_cycle(deps: Seq<Seq<int>>, placed: Seq<bool>)
    requires
        placed.len() == deps.len(),
        stuck(deps, placed),
        unplaced(placed) > 0,
    ensures
        !acyclic(deps),
{
    if acyclic(deps) {
        let order = choose|order: Seq<int>| is_order(deps, order);
        let u = lemma_some_unplaced(placed);
        assert(listed(order, u));
        let k = choose|k: int| 0 <= k < order.len() && #[trigger] order[k] == u;
        let p = lemma_first_unplaced(order, placed, k);
        let t = order[p];
        assert(waits(deps, placed, t));
        let d = choose|d: int|
            0 <= d < deps[t].len() && 0 <= #[trigger] deps[t][d] < placed.len() && !placed[deps[t][d]];
        assert(listed_before(order, deps[order[p]][d], p));
        let a = choose|a: int| 0 <= a < p && a < order.len() && #[trigger] order[a] == deps[t][d];
        assert(placed[order[a]]);
    }
}

/// Whether every task that task `i` depends on is placed.
fn parents_placed(deps: &Vec<Vec<usize>>, placed: &Vec<bool>, i: usize) -> (r: bool)
    requires
        i < deps@.len(),
        placed@.len() == deps@.len(),
        closed_graph(graph_of(deps@)),
    ensures
        r <==> forall|d: int| 0 <= d < deps@[i as int]@.len() ==> placed@[#[trigger] deps@[i as int]@[d] as int],
{
    let mut d: usize = 0;
    while d < deps[i].len()
        invariant
            i < deps@.len(),
            d <= deps@[i as int]@.len(),
            placed@.len() == deps@.len(),
            closed_graph(graph_of(deps@)),
            forall|e: int| 0 <= e < d ==> placed@[#[trigger] deps@[i as int]@[e] as int],
        decreases deps@[i as int]@.len() - d,
    {
        let parent: usize = deps[i][d];
        assert(graph_of(deps@)[i as int][d as int] == parent);
        if !placed[parent] {
            return false;
        }
        d += 1;
    }
    true
}

/// Whether every dependency names a task of the graph.
pub fn is_closed(deps: &Vec<Vec<usize>>) -> (r: bool)
    ensures
        r == closed_graph(graph_of(deps@)),
{
    let n: usize = deps.len();
    let mut i: usize = 0;
    while i < n
        invariant
            n == deps@.len(),
            i <= n,
            forall|a: int, d: int|
                0 <= a < i && 0 <= d < graph_of(deps@)[a].len() ==> 0 <= #[trigger] graph_of(
                    deps@,
                )[a][d] < n,
        decreases n - i,
    {
        let mut d: usize = 0;
        while d < deps[i].len()
            invariant
                n == deps@.len(),
                i < n,
                d <= deps@[i as int]@.len(),
                forall|e: int| 0 <= e < d ==> 0 <= #[trigger] graph_of(deps@)[i as int][e] < n,
            decreases deps@[i as int]@.len() - d,
        {
            if deps[i][d] >= n {
                assert(graph_of(deps@)[i as int][d as int] >= n);
                return false;
            }
            assert(graph_of(deps@)[i as int][d as int] == deps@[i as int]@[d as int]);
            d += 1;
        }
        i += 1;
    }
    true
}

/// Orders the tasks of a graph so that each comes after the tasks it
/// depends on, or finds that a cycle makes that impossible.
pub fn topological_order(deps: &Vec<Vec<usize>>) -> (r: Option<Vec<usize>>)
    requires
        closed_graph(graph_of(deps@)),
    ensures
        r is Some <==> acyclic(graph_of(deps@)),
        r matches Some(order) ==> is_order(graph_of(deps@), places(order@)),
{
    let n: usize = deps.len();
    let ghost g = graph_of(deps@);
    let mut placed: Vec<bool> = Vec::new();
    let mut i: usize = 0;
    while i < n
        invariant
            i <= n,
            placed@.len() == i,
            forall|j: int| 0 <= j < i ==> !#[trigger] placed@[j],
        decreases n - i,
    {
        placed.push(false);
        i += 1;
    }
    proof {
        lemma_all_unplaced(placed@);
    }
    let mut order: Vec<usize> = Vec::new();
    let mut remaining: usize = n;
    let mut stalled: bool = false;
    while remaining > 0 && !stalled
        invariant
            n == deps@.len(),
            g == graph_of(deps@),
            closed_graph(g),
            placed@.len() == n,
            remaining == unplaced(placed@),
            order@.len() + remaining == n,
            forall|k: int| 0 <= k < order@.len() ==> #[trigger] order@[k] < n,
            forall|j: int| 0 <= j < n && #[trigger] placed@[j] ==> listed(places(order@), j),
            forall|k: int, d: int|
                0 <= k < order@.len() && 0 <= d < g[order@[k] as int].len() ==> #[trigger] listed_before(
                    places(order@),
                    g[order@[k] as int][d],
                    k,
                ),
            stalled ==> stuck(g, placed@),
        decreases remaining * 2 + (if stalled { 0int } else { 1int }),
    {
        let mut changed: bool = false;
        let ghost at_start = placed@;
        let mut t: usize = 0;
        while t < n
            invariant
                n == deps@.len(),
                g == graph_of(deps@),
                closed_graph(g),
                t <= n,
                placed@.len() == n,
                remaining == unplaced(placed@),
                order@.len() + remaining == n,
                forall|k: int| 0 <= k < order@.len() ==> #[trigger] order@[k] < n,
                forall|j: int| 0 <= j < n && #[trigger] placed@[j] ==> listed(places(order@), j),
                forall|k: int, d: int|
                    0 <= k < order@.len() && 0 <= d < g[order@[k] as int].len() ==> #[trigger] listed_before(
                        places(order@),
                        g[order@[k] as int][d],
                        k,
                    ),
                !changed ==> placed@ == at_start,
                changed ==> unplaced(placed@) < unplaced(at_start),
                !changed ==> forall|j: int|
                    0 <= j < t && !#[trigger] placed@[j] ==> waits(g, placed@, j),
            decreases n - t,
        {
            if !placed[t] {
                if parents_placed(deps, &placed, t) {
                    let ghost before = placed@;
                    let ghost old_order = order@;
                    proof {
                        lemma_place_one(placed@, t as int);
                    }
                    placed.set(t, true);
                    order.push(t);
                    remaining = remaining - 1;
                    changed = true;
                    proof {
                        let o = places(order@);
                        let oo = places(old_order);
                        assert forall|j: int| 0 <= j < n && #[trigger] placed@[j] implies listed(
                            o,
                            j,
                        ) by {
                            if j == t {
                                assert(o[old_order.len() as int] == t);
                            } else {
                                assert(before[j]);
                                assert(listed(oo, j));
                                let k = choose|k: int| 0 <= k < oo.len() && #[trigger] oo[k] == j;
                                assert(o[k] == j);
                            }
                        }
                        assert forall|k: int, d: int|
                            0 <= k < order@.len() && 0 <= d < g[order@[k] as int].len() implies #[trigger] listed_before(
                            o,
                            g[order@[k] as int][d],
                            k,
                        ) by {
                            if k < old_order.len() {
                                assert(order@[k] == old_order[k]);
                                let parent = g[old_order[k] as int][d];
                                assert(listed_before(oo, parent, k));
                                let a = choose|a: int|
                                    0 <= a < k && a < oo.len() && #[trigger] oo[a] == parent;
                                assert(o[a] == parent);
                            } else {
                                let parent = g[t as int][d];
                                assert(parent == deps@[t as int]@[d]);
                                assert(before[parent]);
                                assert(listed(oo, parent));
                                let a = choose|a: int| 0 <= a < oo.len() && #[trigger] oo[a] == parent;
                                assert(o[a] == parent);
                            }
                        }
                    }
                } else {
                    proof {
                        if !changed {
                            let d = choose|d: int|
                                0 <= d < deps@[t as int]@.len() && !placed@[#[trigger] deps@[t as int]@[d] as int];
                            assert(g[t as int][d] == deps@[t as int]@[d]);
                            assert(waits(g, placed@, t as int));
                        }
                    }
                }
            }
            t += 1;
        }
        if !changed {
            stalled = true;
        }
    }
    if remaining == 0 {
        proof {
            lemma_none_unplaced(placed@);
            let o = places(order@);
            assert forall|i: int| 0 <= i < g.len() implies #[trigger] listed(o, i) by {
                assert(placed@[i]);
            }
            assert forall|k: int, d: int|
                0 <= k < o.len() && 0 <= d < g[o[k]].len() implies #[trigger] listed_before(
                o,
                g[o[k]][d],
                k,
            ) by {
                assert(listed_before(o, g[order@[k] as int][d], k));
            }
            assert(is_order(g, o));
        }
        Some(order)
    } else {
        proof {
            lemma_stuck_has_cycle(g, placed@);
        }
        None
    }
}

/// Every task that a task of `tasks` depends on is one of `tasks`.
pub open spec fn dependencies_known(tasks: Seq<(Seq<char>, TaskView)>) -> bool {
    forall|i: int, d: int|
        0 <= i < tasks.len() && 0 <= d < tasks[i].1.depends_on.len() ==> has_key(
            tasks,
            (#[trigger] tasks[i].1.depends_on[d]).0,
        )
}

/// The dependency graph of `tasks`: for each task, the places of the tasks
/// it depends on.
pub open spec fn task_graph(tasks: Seq<(Seq<char>, TaskView)>) -> Seq<Seq<int>> {
    Seq::new(
        tasks.len(),
        |i: int|
            Seq::new(
                tasks[i].1.depends_on.len(),
                |d: int| key_index(tasks, tasks[i].1.depends_on[d].0),
            ),
    )
}

/// The tasks can be run: every dependency names one of them, and no task
/// waits, directly or through others, for itself.
pub open spec fn runnable(tasks: Seq<(Seq<char>, TaskView)>) -> bool {
    dependencies_known(tasks) && acyclic(task_graph(tasks))
}

/// Where all dependencies are known, they name places among the tasks.
pub proof fn lemma_task_graph_closed(tasks: Seq<(Seq<char>, TaskView)>)
    requires
        dependencies_known(tasks),
    ensures
        closed_graph(task_graph(tasks)),
{
    let g = task_graph(tasks);
    assert forall|i: int, d: int| 0 <= i < g.len() && 0 <= d < g[i].len() implies 0
        <= #[trigger] g[i][d] < g.len() by {
        assert(has_key(tasks, tasks[i].1.depends_on[d].0));
    }
}

/// For each task, the places of the tasks it depends on; nothing where a
/// dependency names no task.
pub fn dependency_places(tasks: &StringMap<Task>) -> (r: Option<Vec<Vec<usize>>>)
    ensures
        r is Some <==> dependencies_known(tasks.deep_view()),
        r matches Some(deps) ==> graph_of(deps@) == task_graph(tasks.deep_view()),
{
    let n: usize = tasks.len();
    let ghost view = tasks.deep_view();
    let mut deps: Vec<Vec<usize>> = Vec::new();
    let mut i: usize = 0;
    while i < n
        invariant
            n == tasks@.len(),
            view == tasks.deep_view(),
            distinct_keys(tasks@),
            i <= n,
            deps@.len() == i,
            forall|a: int, d: int|
                0 <= a < i && 0 <= d < view[a].1.depends_on.len() ==> has_key(
                    view,
                    (#[trigger] view[a].1.depends_on[d]).0,
                ),
            forall|a: int| 0 <= a < i ==> (#[trigger] deps@[a])@.len() == view[a].1.depends_on.len(),
            forall|a: int, d: int|
                0 <= a < i && 0 <= d < view[a].1.depends_on.len() ==> (#[trigger] deps@[a]@[d])
                    == key_index(view, view[a].1.depends_on[d].0),
        decreases n - i,
    {
        let task = tasks.value_at(i);
        assert(view[i as int].1 == task.deep_view());
        let m: usize = task.depends_on.len();
        let mut row: Vec<usize> = Vec::new();
        let mut d: usize = 0;
        while d < m
            invariant
                n == tasks@.len(),
                view == tasks.deep_view(),
                distinct_keys(tasks@),
                i < n,
                m == task.depends_on@.len(),
                view[i as int].1 == task.deep_view(),
                d <= m,
                row@.len() == d,
                forall|e: int|
                    0 <= e < d ==> has_key(view, (#[trigger] view[i as int].1.depends_on[e]).0),
                forall|e: int|
                    0 <= e < d ==> (#[trigger] row@[e]) == key_index(
                        view,
                        view[i as int].1.depends_on[e].0,
                    ),
            decreases m - d,
        {
            let name = task.depends_on.key_at(d);
            proof {
                lemma_deep_keys(tasks@, name@);
                assert(view[i as int].1.depends_on[d as int].0 == name@);
            }
            match tasks.position(name) {
                Some(at) => {
                    row.push(at);
                },
                None => {
                    return None;
                },
            }
            d += 1;
        }
        deps.push(row);
        i += 1;
    }
    proof {
        let g = task_graph(view);
        let h = graph_of(deps@);
        assert forall|a: int| 0 <= a < g.len() implies #[trigger] h[a] == g[a] by {
            assert(deps@[a]@.len() == view[a].1.depends_on.len());
            assert forall|d: int| 0 <= d < g[a].len() implies #[trigger] h[a][d] == g[a][d] by {
                assert(deps@[a]@[d] == key_index(view, view[a].1.depends_on[d].0));
            }
            assert(h[a] =~= g[a]);
        }
        assert(h =~= g);
    }
    Some(deps)
}

/// An order in which the tasks can be run, each after the tasks it depends
/// on; nothing where the tasks cannot be run.
pub fn run_order(tasks: &StringMap<Task>) -> (r: Option<Vec<usize>>)
    ensures
        r is Some <==> runnable(tasks.deep_view()),
        r matches Some(order) ==> is_order(task_graph(tasks.deep_view()), places(order@)),
{
    match dependency_places(tasks) {
        Some(deps) => {
            proof {
                lemma_task_graph_closed(tasks.deep_view());
            }
            topological_order(&deps)
        },
        None => None,
    }
}

} // verus!

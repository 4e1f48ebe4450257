//! Reading back the ordering a built schedule will actually enforce.
//!
//! A plugin that schedules a pipeline — stage N's output is stage N+1's input —
//! states that with ordering edges. Neither the prose nor the order the systems
//! are written in proves anything: the executor runs whatever the dependency
//! graph allows, so what is checked is that the ordering edges reach from each
//! stage to the next.
//!
//! The schedule is held here as plain data: each system by the number its type
//! is known by, the dependency edges between nodes (a node is a system or a
//! set standing for everything beneath it), and the set hierarchy. Expanding
//! the edges through the hierarchy gives the "runs before" relation, and a
//! pipeline is in order when each stage is reachable from the one before it.

use std::collections::HashMap;
use std::collections::HashSet;
use vstd::prelude::*;

verus! {

broadcast use vstd::std_specs::hash::group_hash_axioms;

/// One stage of a pipeline: the name to report it by, and the number of the
/// system type the schedule knows it as.
#[derive(Debug, Clone, Copy)]
pub struct Stage {
    /// What to call the stage when a check about it fails.
    pub name: &'static str,
    /// The concrete system type the scheduler boxed the function into.
    pub system_type: u64,
}

/// A node of a schedule graph: one system, or a set standing for every system
/// anywhere beneath it in the hierarchy.
#[derive(Debug, Clone, Copy, PartialEq, Eq, Structural)]
pub enum NodeId {
    /// A system, by its key in the schedule.
    System(u64),
    /// A system set, by its key in the schedule.
    SystemSet(u64),
}

/// A schedule's graphs, as far as ordering reads them.
#[derive(Debug)]
pub struct ScheduleGraph {
    /// The ordering edges: the first node runs before the second.
    pub dependency: Vec<(NodeId, NodeId)>,
    /// The set hierarchy: the direct members of each set, by set key.
    pub hierarchy: HashMap<u64, Vec<NodeId>>,
}

/// The direct members of `set` in the hierarchy `h`.
pub open spec fn members_of(h: Map<u64, Vec<NodeId>>, set: u64) -> Seq<NodeId> {
    if h.contains_key(set) {
        h[set]@
    } else {
        Seq::empty()
    }
}

/// Every system `node` stands for, expanding sets at most `depth` levels
/// deep: the system itself, or every system beneath the set, in member order.
pub open spec fn systems_in(h: Map<u64, Vec<NodeId>>, node: NodeId, depth: nat) -> Seq<u64>
    decreases depth, 0nat,
{
    match node {
        NodeId::System(key) => seq![key],
        NodeId::SystemSet(set) => if depth == 0 {
            Seq::empty()
        } else {
            systems_in_all(h, members_of(h, set), (depth - 1) as nat)
        },
    }
}

/// Every system the nodes of `nodes` stand for, in order.
pub open spec fn systems_in_all(h: Map<u64, Vec<NodeId>>, nodes: Seq<NodeId>, depth: nat) -> Seq<u64>
    decreases depth, nodes.len(),
{
    if nodes.len() == 0 {
        Seq::empty()
    } else {
        systems_in_all(h, nodes.drop_last(), depth) + systems_in(h, nodes.last(), depth)
    }
}

/// Whether some ordering edge among `pairs` (each a pair of expanded system
/// lists) puts system `a` before system `b`.
pub open spec fn pairs_link(pairs: Seq<(Seq<u64>, Seq<u64>)>, a: u64, b: u64) -> bool {
    exists|i: int| 0 <= i < pairs.len() && (#[trigger] pairs[i]).0.contains(a) && pairs[i].1.contains(b)
}

/// Whether some ordering edge among `pairs` starts at system `a`.
pub open spec fn pairs_source(pairs: Seq<(Seq<u64>, Seq<u64>)>, a: u64) -> bool {
    exists|i: int| 0 <= i < pairs.len() && (#[trigger] pairs[i]).0.contains(a)
}

/// The dependency edges of `g` with both ends expanded `depth` levels deep.
pub open spec fn expanded_edges(g: &ScheduleGraph, depth: nat) -> Seq<(Seq<u64>, Seq<u64>)> {
    g.dependency@.map_values(
        |e: (NodeId, NodeId)| (systems_in(g.hierarchy@, e.0, depth), systems_in(g.hierarchy@, e.1, depth)),
    )
}

/// The systems `a` is ordered directly ahead of in the relation `before`.
pub open spec fn successors(before: Map<u64, Vec<u64>>, a: u64) -> Seq<u64> {
    if before.contains_key(a) {
        before[a]@
    } else {
        Seq::empty()
    }
}

/// Whether `path` is a walk of one or more steps along `before` starting from
/// `a`: its first system follows `a` directly, each next one the one before.
pub open spec fn is_walk_from(before: Map<u64, Vec<u64>>, a: u64, path: Seq<u64>) -> bool {
    &&& path.len() > 0
    &&& successors(before, a).contains(path[0])
    &&& forall|i: int| 0 <= i < path.len() - 1 ==> successors(before, path[i]).contains(#[trigger] path[i + 1])
}

/// Whether the relation `before` reaches from `a` to `b` in one or more steps.
pub open spec fn reaches(before: Map<u64, Vec<u64>>, a: u64, b: u64) -> bool {
    exists|path: Seq<u64>| #[trigger] is_walk_from(before, a, path) && path.last() == b
}

/// Collect every system `node` stands for, at most `depth` set levels deep,
/// onto the end of `into`.
fn systems_under(graph: &ScheduleGraph, node: NodeId, depth: u64, into: &mut Vec<u64>)
    ensures
        final(into)@ == old(into)@ + systems_in(graph.hierarchy@, node, depth as nat),
    decreases depth,
{
    let ghost h = graph.hierarchy@;
    match node {
        NodeId::System(key) => {
            into.push(key);
        },
        NodeId::SystemSet(set) => {
            if depth == 0 {
                assert(into@ =~= old(into)@ + Seq::<u64>::empty());
                return;
            }
            let ghost base = into@;
            match graph.hierarchy.get(&set) {
                None => {
                    assert(members_of(h, set) =~= Seq::<NodeId>::empty());
                    assert(into@ =~= base + Seq::<u64>::empty());
                },
                Some(members) => {
                    assert(members@ == members_of(h, set));
                    for i in 0..members.len()
                        invariant
                            h == graph.hierarchy@,
                            members@ == members_of(h, set),
                            depth > 0,
                            into@ == base + systems_in_all(h, members@.take(i as int), (depth - 1) as nat),
                    {
                        proof {
                            let t = members@.take(i + 1);
                            assert(t.drop_last() =~= members@.take(i as int));
                            assert(t.last() == members@[i as int]);
                        }
                        systems_under(graph, members[i], depth - 1, into);
                        proof {
                            let t = members@.take(i + 1);
                            assert(t.drop_last() =~= members@.take(i as int));
                            assert(into@ =~= base + systems_in_all(h, t, (depth - 1) as nat));
                        }
                    }
                    assert(members@.take(members@.len() as int) =~= members@);
                },
            }
        },
    }
}

/// The "runs before" relation the scheduler will enforce, from each system to
/// the systems it is ordered ahead of: every dependency edge with both of its
/// ends expanded through the hierarchy, at most `depth` set levels deep.
fn before_edges(graph: &ScheduleGraph, depth: u64) -> (edges: HashMap<u64, Vec<u64>>)
    ensures
        forall|a: u64| #[trigger] edges@.contains_key(a) <==> pairs_source(expanded_edges(graph, depth as nat), a),
        forall|a: u64, b: u64|
            #[trigger] successors(edges@, a).contains(b) <==> pairs_link(expanded_edges(graph, depth as nat), a, b),
{
    let ghost pairs = expanded_edges(graph, depth as nat);
    let mut edges: HashMap<u64, Vec<u64>> = HashMap::new();
    for i in 0..graph.dependency.len()
        invariant
            pairs == expanded_edges(graph, depth as nat),
            pairs.len() == graph.dependency@.len(),
            forall|a: u64| #[trigger] edges@.contains_key(a) <==> pairs_source(pairs.take(i as int), a),
            forall|a: u64, b: u64|
                #[trigger] successors(edges@, a).contains(b) <==> pairs_link(pairs.take(i as int), a, b),
    {
        let (from, to) = graph.dependency[i];
        let mut earlier: Vec<u64> = Vec::new();
        systems_under(graph, from, depth, &mut earlier);
        let mut later: Vec<u64> = Vec::new();
        systems_under(graph, to, depth, &mut later);
        proof {
            assert(pairs[i as int] == (earlier@, later@));
        }
        let ghost done = pairs.take(i as int);
        for j in 0..earlier.len()
            invariant
                pairs == expanded_edges(graph, depth as nat),
                pairs.len() == graph.dependency@.len(),
                i < pairs.len(),
                pairs[i as int] == (earlier@, later@),
                done == pairs.take(i as int),
                forall|a: u64| #[trigger] edges@.contains_key(a) <==> pairs_source(done, a) || earlier@.take(
                    j as int,
                ).contains(a),
                forall|a: u64, b: u64| #[trigger]
                    successors(edges@, a).contains(b) <==> pairs_link(done, a, b) || (earlier@.take(
                        j as int,
                    ).contains(a) && later@.contains(b)),
        {
            let key = earlier[j];
            let ghost before_map = edges@;
            let mut list: Vec<u64> = match edges.remove(&key) {
                Some(list) => list,
                None => Vec::new(),
            };
            let ghost start = list@;
            proof {
                assert(start == successors(before_map, key));
            }
            for m in 0..later.len()
                invariant
                    list@ == start + later@.take(m as int),
            {
                list.push(later[m]);
                proof {
                    assert(later@.take(m + 1) =~= later@.take(m as int).push(later@[m as int]));
                }
            }
            proof {
                assert(later@.take(later@.len() as int) =~= later@);
            }
            edges.insert(key, list);
            proof {
                assert(earlier@.take(j + 1) =~= earlier@.take(j as int).push(key));
                assert forall|a: u64| #[trigger] edges@.contains_key(a) <==> pairs_source(done, a) || earlier@.take(
                    j + 1,
                ).contains(a) by {
                    if a != key {
                        assert(edges@.contains_key(a) == before_map.contains_key(a));
                        assert(earlier@.take(j + 1).contains(a) <==> earlier@.take(j as int).contains(a));
                    } else {
                        assert(earlier@.take(j + 1)[j as int] == key);
                    }
                }
                assert forall|a: u64, b: u64| #[trigger]
                    successors(edges@, a).contains(b) <==> pairs_link(done, a, b) || (earlier@.take(
                        j + 1,
                    ).contains(a) && later@.contains(b)) by {
                    if a != key {
                        assert(edges@.contains_key(a) == before_map.contains_key(a));
                        if edges@.contains_key(a) {
                            assert(edges@[a] == before_map[a]);
                        }
                        assert(successors(edges@, a) == successors(before_map, a));
                        assert(successors(before_map, a).contains(b) <==> pairs_link(done, a, b) || (earlier@.take(
                            j as int,
                        ).contains(a) && later@.contains(b)));
                        assert(earlier@.take(j + 1).contains(a) <==> earlier@.take(j as int).contains(a));
                        assert(successors(edges@, a).contains(b) <==> pairs_link(done, a, b) || (earlier@.take(
                            j + 1,
                        ).contains(a) && later@.contains(b)));
                    } else {
                        assert(earlier@.take(j + 1)[j as int] == key);
                        assert(successors(edges@, a) == start + later@);
                        assert(successors(before_map, a).contains(b) <==> pairs_link(done, a, b) || (earlier@.take(
                            j as int,
                        ).contains(a) && later@.contains(b)));
                        assert(earlier@.take(j + 1).contains(a));
                        if later@.contains(b) {
                            let y = choose|y: int| 0 <= y < later@.len() && later@[y] == b;
                            assert((start + later@)[start.len() + y] == b);
                        }
                        if start.contains(b) {
                            let y = choose|y: int| 0 <= y < start.len() && start[y] == b;
                            assert((start + later@)[y] == b);
                        }
                        if (start + later@).contains(b) {
                            let y = choose|y: int| 0 <= y < (start + later@).len() && (start + later@)[y] == b;
                            if y < start.len() {
                                assert(start[y] == b);
                                assert(start.contains(b));
                                assert(successors(before_map, a).contains(b));
                            } else {
                                assert(later@[y - start.len()] == b);
                                assert(later@.contains(b));
                            }
                        }
                        assert(successors(edges@, a).contains(b) <==> pairs_link(done, a, b) || (earlier@.take(
                            j + 1,
                        ).contains(a) && later@.contains(b)));
                    }
                }
            }
        }
        proof {
            assert(earlier@.take(earlier@.len() as int) =~= earlier@);
            assert(pairs.take(i + 1) =~= done.push(pairs[i as int]));
            assert forall|a: u64| pairs_source(done, a) || earlier@.contains(a) <==> #[trigger] pairs_source(
                pairs.take(i + 1),
                a,
            ) by {
                if pairs_source(pairs.take(i + 1), a) {
                    let x = choose|x: int| 0 <= x < i + 1 && (#[trigger] pairs.take(i + 1)[x]).0.contains(a);
                    if x < i {
                        assert(done[x] == pairs.take(i + 1)[x]);
                    }
                }
                if pairs_source(done, a) {
                    let x = choose|x: int| 0 <= x < done.len() && (#[trigger] done[x]).0.contains(a);
                    assert(pairs.take(i + 1)[x] == done[x]);
                }
                if earlier@.contains(a) {
                    assert(pairs.take(i + 1)[i as int] == pairs[i as int]);
                }
            }
            assert forall|a: u64, b: u64| pairs_link(done, a, b) || (earlier@.contains(a) && later@.contains(b))
                <==> #[trigger] pairs_link(pairs.take(i + 1), a, b) by {
                if pairs_link(pairs.take(i + 1), a, b) {
                    let x = choose|x: int|
                        0 <= x < i + 1 && (#[trigger] pairs.take(i + 1)[x]).0.contains(a) && pairs.take(i + 1)[x].1.contains(b);
                    if x < i {
                        assert(done[x] == pairs.take(i + 1)[x]);
                    }
                }
                if pairs_link(done, a, b) {
                    let x = choose|x: int| 0 <= x < done.len() && (#[trigger] done[x]).0.contains(a) && done[x].1.contains(b);
                    assert(pairs.take(i + 1)[x] == done[x]);
                }
                if earlier@.contains(a) && later@.contains(b) {
                    assert(pairs.take(i + 1)[i as int] == pairs[i as int]);
                }
            }
        }
    }
    proof {
        assert(pairs.take(pairs.len() as int) =~= pairs);
    }
    edges
}

/// Every system some entry of `m` restricted to `dom` lists, as a sequence.
proof fn edge_targets(m: Map<u64, Vec<u64>>, dom: Set<u64>) -> (r: Seq<u64>)
    requires
        dom.finite(),
        dom.subset_of(m.dom()),
    ensures
        forall|a: u64, b: u64| dom.contains(a) && #[trigger] m[a]@.contains(b) ==> r.contains(b),
    decreases dom.len(),
{
    if dom.len() == 0 {
        dom.lemma_len0_is_empty();
        Seq::empty()
    } else {
        let a = dom.choose();
        assert(dom.contains(a));
        let rest = edge_targets(m, dom.remove(a));
        let r = rest + m[a]@;
        assert forall|x: u64, b: u64| dom.contains(x) && #[trigger] m[x]@.contains(b) implies r.contains(b) by {
            if x == a {
                let y = choose|y: int| 0 <= y < m[a]@.len() && m[a]@[y] == b;
                assert(r[rest.len() + y] == b);
            } else {
                assert(dom.remove(a).contains(x));
                assert(rest.contains(b));
                let y = choose|y: int| 0 <= y < rest.len() && rest[y] == b;
                assert(r[y] == b);
            }
        }
        r
    }
}

/// Whether every system `x` is ordered directly ahead of is in `seen`.
pub open spec fn successors_within(before: Map<u64, Vec<u64>>, seen: Set<u64>, x: u64) -> bool {
    forall|y: u64| #[trigger] successors(before, x).contains(y) ==> seen.contains(y)
}

/// A walk can be extended by one more step.
proof fn lemma_walk_extends(before: Map<u64, Vec<u64>>, a: u64, x: u64, y: u64)
    requires
        x == a || reaches(before, a, x),
        successors(before, x).contains(y),
    ensures
        reaches(before, a, y),
{
    if x == a {
        let p = seq![y];
        assert(is_walk_from(before, a, p));
    } else {
        let p = choose|p: Seq<u64>| #[trigger] is_walk_from(before, a, p) && p.last() == x;
        let q = p.push(y);
        assert forall|i: int| 0 <= i < q.len() - 1 implies successors(before, q[i]).contains(#[trigger] q[i + 1]) by {
            if i < p.len() - 1 {
                assert(q[i] == p[i] && q[i + 1] == p[i + 1]);
            } else {
                assert(q[i] == x && q[i + 1] == y);
            }
        }
        assert(is_walk_from(before, a, q));
    }
}

/// A set that holds everything `a` and each of its own members are ordered
/// directly ahead of holds every system of a walk from `a`.
proof fn lemma_closed_set_holds_walk(before: Map<u64, Vec<u64>>, a: u64, seen: Set<u64>, path: Seq<u64>, k: int)
    requires
        is_walk_from(before, a, path),
        successors_within(before, seen, a),
        forall|x: u64| #[trigger] seen.contains(x) ==> successors_within(before, seen, x),
        0 <= k < path.len(),
    ensures
        seen.contains(path[k]),
    decreases k,
{
    if k == 0 {
        assert(successors(before, a).contains(path[0]));
    } else {
        lemma_closed_set_holds_walk(before, a, seen, path, k - 1);
        assert(successors(before, path[k - 1]).contains(path[k - 1 + 1]));
        assert(successors_within(before, seen, path[k - 1]));
    }
}

/// Where a pipeline check failed.
#[derive(Debug, Clone, Copy, PartialEq, Eq, Structural)]
pub enum PipelineFault {
    /// The stage at this index is not in the schedule at all.
    Missing {
        /// The stage's index in the pipeline.
        stage: usize,
    },
    /// Nothing orders the stage at `earlier` before the one at `later`, so the
    /// scheduler may run them in either order.
    Unordered {
        /// The index of the stage that should run first.
        earlier: usize,
        /// The index of the stage that should run next.
        later: usize,
    },
}

/// The schedule's key for `stage`, if it is in the schedule at all.
pub open spec fn stage_key(keys: Map<u64, u64>, stage: Stage) -> Option<u64> {
    if keys.contains_key(stage.system_type) {
        Some(keys[stage.system_type])
    } else {
        None
    }
}

/// What is wrong at stage `i` of a pipeline, given that nothing is wrong
/// before it: the stage is missing, or nothing orders it after the stage
/// before it.
pub open spec fn stage_fault(keys: Map<u64, u64>, before: Map<u64, Vec<u64>>, stages: Seq<Stage>, i: int) -> Option<
    PipelineFault,
> {
    if stage_key(keys, stages[i]) is None {
        Some(PipelineFault::Missing { stage: i as usize })
    } else if i > 0 && !reaches(
        before,
        stage_key(keys, stages[i - 1])->0,
        stage_key(keys, stages[i])->0,
    ) {
        Some(PipelineFault::Unordered { earlier: (i - 1) as usize, later: i as usize })
    } else {
        None
    }
}

/// A built schedule, reduced to what an ordering check needs.
#[derive(Debug)]
pub struct ScheduleOrder {
    /// Each system in the schedule, by the type it was boxed from.
    keys: HashMap<u64, u64>,
    /// For each system, the systems it is ordered ahead of.
    before: HashMap<u64, Vec<u64>>,
}

impl ScheduleOrder {
    /// Each system's key in the schedule, by the number of its type.
    pub closed spec fn system_keys(&self) -> Map<u64, u64> {
        self.keys@
    }

    /// For each system, the systems it is ordered directly ahead of.
    pub closed spec fn runs_before(&self) -> Map<u64, Vec<u64>> {
        self.before@
    }

    /// Flatten a built schedule: its systems by type, and the dependency edges
    /// expanded through the set hierarchy. A nesting of sets is at most as
    /// deep as there are sets, so the expansion goes that deep.
    pub fn from_graph(keys: HashMap<u64, u64>, graph: &ScheduleGraph) -> (order: ScheduleOrder)
        ensures
            order.system_keys() == keys@,
            forall|a: u64, b: u64| #[trigger]
                successors(order.runs_before(), a).contains(b) <==> pairs_link(
                    expanded_edges(graph, graph.hierarchy@.len()),
                    a,
                    b,
                ),
    {
        let depth = graph.hierarchy.len() as u64;
        ScheduleOrder { keys, before: before_edges(graph, depth) }
    }

    /// The schedule's key for `stage`, if it is in the schedule at all.
    fn key(&self, stage: &Stage) -> (k: Option<u64>)
        ensures
            k == stage_key(self.keys@, *stage),
    {
        match self.keys.get(&stage.system_type) {
            Some(k) => Some(*k),
            None => None,
        }
    }

    /// Whether the schedule's ordering edges reach `later` from `earlier`.
    fn orders(&self, earlier: u64, later: u64) -> (found: bool)
        ensures
            found == reaches(self.before@, earlier, later),
    {
        let ghost m = self.before@;
        let ghost mut universe: Set<u64> = Set::empty();
        proof {
            assert(m.dom().finite());
            let targets = edge_targets(m, m.dom());
            universe = targets.to_set();
        }
        let mut seen: HashSet<u64> = HashSet::new();
        let mut pending: Vec<u64> = Vec::new();
        pending.push(earlier);
        proof {
            assert(pending@[0] == earlier);
        }
        while pending.len() > 0
            invariant
                m == self.before@,
                universe.finite(),
                forall|a: u64, b: u64| m.contains_key(a) && #[trigger] m[a]@.contains(b) ==> universe.contains(b),
                seen@.subset_of(universe),
                !seen@.contains(later),
                forall|x: u64| #[trigger] seen@.contains(x) ==> reaches(m, earlier, x),
                forall|j: int| 0 <= j < pending.len() ==> #[trigger] pending@[j] == earlier || seen@.contains(pending@[j]),
                forall|x: u64|
                    (x == earlier || seen@.contains(x)) && !pending@.contains(x) ==> #[trigger] successors_within(
                        m,
                        seen@,
                        x,
                    ),
            decreases universe.len() - seen@.len(), pending.len(),
        {
            proof {
                vstd::set_lib::lemma_len_subset(seen@, universe);
            }
            let ghost pending0 = pending@;
            let ghost seen0 = seen@;
            let key = pending.pop().unwrap();
            proof {
                assert(pending0[pending0.len() - 1] == key);
                assert(key == earlier || seen@.contains(key));
                assert(pending@ =~= pending0.drop_last());
            }
            let ghost popped = pending@;
            match self.before.get(&key) {
                None => {
                    assert forall|x: u64|
                        (x == earlier || seen@.contains(x)) && !pending@.contains(x) implies #[trigger] successors_within(
                        m,
                        seen@,
                        x,
                    ) by {
                        if x != key {
                            assert(!pending0.contains(x)) by {
                                if pending0.contains(x) {
                                    let y = choose|y: int| 0 <= y < pending0.len() && pending0[y] == x;
                                    assert(y < pending0.len() - 1);
                                    assert(pending@[y] == x);
                                }
                            }
                            assert(seen@ == seen0);
                        } else {
                            assert(!m.contains_key(key));
                            assert(successors(m, key) =~= Seq::<u64>::empty());
                        }
                    }
                },
                Some(list) => {
                    assert(list@ == successors(m, key));
                    for i in 0..list.len()
                        invariant
                            m == self.before@,
                            list@ == successors(m, key),
                            m.contains_key(key),
                            key == earlier || reaches(m, earlier, key),
                            universe.finite(),
                            forall|a: u64, b: u64| m.contains_key(a) && #[trigger] m[a]@.contains(b) ==> universe.contains(b),
                            seen@.subset_of(universe),
                            seen0.subset_of(seen@),
                            !seen@.contains(later),
                            forall|x: u64| #[trigger] seen@.contains(x) ==> reaches(m, earlier, x),
                            forall|j: int| 0 <= j < i ==> seen@.contains(#[trigger] list@[j]),
                            pending@.len() == popped.len() + (seen@.len() - seen0.len()),
                            pending@.take(popped.len() as int) == popped,
                            forall|j: int| popped.len() <= j < pending.len() ==> seen@.contains(#[trigger] pending@[j]),
                            seen@.len() >= seen0.len(),
                            seen0.finite(),
                            forall|x: u64| #[trigger] seen@.contains(x) && !seen0.contains(x) ==> pending@.contains(x),
                    {
                        proof {
                            vstd::set_lib::lemma_len_subset(seen@, universe);
                        }
                        let next = list[i];
                        proof {
                            assert(m[key]@.contains(next)) by {
                                assert(m[key]@[i as int] == next);
                            }
                            assert(successors(m, key).contains(next));
                            lemma_walk_extends(m, earlier, key, next);
                        }
                        if next == later {
                            return true;
                        }
                        let ghost before_insert = seen@;
                        let ghost pending_before = pending@;
                        if seen.insert(next) {
                            pending.push(next);
                            proof {
                                assert(seen@ == before_insert.insert(next));
                                assert(seen@.len() == before_insert.len() + 1);
                                assert(pending@.take(popped.len() as int) =~= pending_before.take(popped.len() as int));
                                assert forall|x: u64| #[trigger] seen@.contains(x) && !seen0.contains(x) implies pending@.contains(x) by {
                                    if x == next {
                                        assert(pending@[pending@.len() - 1] == next);
                                    } else {
                                        assert(pending_before.contains(x));
                                        let y = choose|y: int| 0 <= y < pending_before.len() && pending_before[y] == x;
                                        assert(pending@[y] == x);
                                    }
                                }
                            }
                        }
                    }
                    proof {
                        assert forall|y: u64| #[trigger] successors(m, key).contains(y) implies seen@.contains(y) by {
                            let j = choose|j: int| 0 <= j < list@.len() && list@[j] == y;
                        }
                        assert forall|x: u64|
                            (x == earlier || seen@.contains(x)) && !pending@.contains(x) implies #[trigger] successors_within(
                            m,
                            seen@,
                            x,
                        ) by {
                            if x != key {
                                assert(x == earlier || seen0.contains(x)) by {
                                    if x != earlier && !seen0.contains(x) {
                                        assert(pending@.contains(x));
                                    }
                                };
                                assert(!pending0.contains(x)) by {
                                    if pending0.contains(x) {
                                        let y = choose|y: int| 0 <= y < pending0.len() && pending0[y] == x;
                                        assert(y < popped.len());
                                        assert(pending@.take(popped.len() as int)[y] == popped[y]);
                                        assert(pending@[y] == x);
                                    }
                                }
                                assert(successors_within(m, seen0, x));
                            }
                        }
                    }
                },
            }
            proof {
                vstd::set_lib::lemma_len_subset(seen@, universe);
                assert(pending@.len() == popped.len() + (seen@.len() - seen0.len()));
                assert(popped.len() == pending0.len() - 1);
                assert forall|j: int| 0 <= j < pending.len() implies #[trigger] pending@[j] == earlier || seen@.contains(
                    pending@[j],
                ) by {
                    if j < popped.len() {
                        assert(pending@.take(popped.len() as int)[j] == popped[j]);
                        assert(popped[j] == pending0[j]);
                        assert(pending0[j] == earlier || seen0.contains(pending0[j]));
                    }
                }
            }
        }
        proof {
            assert(pending@ =~= Seq::<u64>::empty());
            assert(seen@.contains(earlier) || !seen@.contains(earlier));
            if reaches(m, earlier, later) {
                let p = choose|p: Seq<u64>| #[trigger] is_walk_from(m, earlier, p) && p.last() == later;
                assert(!pending@.contains(earlier));
                lemma_closed_set_holds_walk(m, earlier, seen@, p, p.len() - 1);
            }
        }
        false
    }

    /// Check that the schedule orders `stages` one after another, each stage
    /// after the one before it. The first stage that is missing from the
    /// schedule, or the first neighbouring pair nothing orders, is the fault.
    pub fn check_pipeline(&self, stages: &[Stage]) -> (r: Result<(), PipelineFault>)
        ensures
            r is Ok <==> forall|i: int| 0 <= i < stages@.len() ==> #[trigger] stage_fault(
                self.system_keys(),
                self.runs_before(),
                stages@,
                i,
            ) is None,
            r matches Err(f) ==> exists|i: int|
                0 <= i < stages@.len() && #[trigger] stage_fault(self.system_keys(), self.runs_before(), stages@, i)
                    == Some(f) && forall|j: int| 0 <= j < i ==> #[trigger] stage_fault(
                    self.system_keys(),
                    self.runs_before(),
                    stages@,
                    j,
                ) is None,
    {
        let ghost keys = self.keys@;
        let ghost before = self.before@;
        let mut previous: Option<u64> = None;
        for i in 0..stages.len()
            invariant
                keys == self.keys@,
                before == self.before@,
                forall|j: int| 0 <= j < i ==> #[trigger] stage_fault(keys, before, stages@, j) is None,
                i == 0 ==> previous is None,
                i > 0 ==> previous == stage_key(keys, stages@[i - 1]),
        {
            let key = self.key(&stages[i]);
            proof {
                if i > 0 {
                    assert(stage_fault(keys, before, stages@, i - 1) is None);
                }
            }
            match key {
                None => {
                    assert(stage_fault(keys, before, stages@, i as int) == Some(PipelineFault::Missing { stage: i }));
                    return Err(PipelineFault::Missing { stage: i });
                },
                Some(k) => {
                    if let Some(p) = previous {
                        if !self.orders(p, k) {
                            assert(stage_fault(keys, before, stages@, i as int) == Some(
                                PipelineFault::Unordered { earlier: (i - 1) as usize, later: i },
                            ));
                            return Err(PipelineFault::Unordered { earlier: i - 1, later: i });
                        }
                    }
                    assert(stage_fault(keys, before, stages@, i as int) is None);
                    previous = Some(k);
                },
            }
        }
        Ok(())
    }
}

/// Walks compose: reaching `b` from `a` and `c` from `b` reaches `c` from `a`.
proof fn lemma_reaches_transitive(before: Map<u64, Vec<u64>>, a: u64, b: u64, c: u64)
    requires
        reaches(before, a, b),
        reaches(before, b, c),
    ensures
        reaches(before, a, c),
{
    let p = choose|p: Seq<u64>| #[trigger] is_walk_from(before, a, p) && p.last() == b;
    let q = choose|q: Seq<u64>| #[trigger] is_walk_from(before, b, q) && q.last() == c;
    let r = p + q;
    assert forall|i: int| 0 <= i < r.len() - 1 implies successors(before, r[i]).contains(#[trigger] r[i + 1]) by {
        if i < p.len() - 1 {
            assert(r[i] == p[i] && r[i + 1] == p[i + 1]);
        } else if i == p.len() - 1 {
            assert(r[i] == b && r[i + 1] == q[0]);
        } else {
            assert(r[i] == q[i - p.len()] && r[i + 1] == q[i - p.len() + 1]);
        }
    }
    assert(r.last() == q.last());
    assert(is_walk_from(before, a, r));
}

/// A pipeline the schedule passes orders every stage before every later one,
/// not only before its neighbour: the "runs before" relation composes.
pub proof fn law_a_passed_pipeline_orders_every_later_stage(
    order: ScheduleOrder,
    stages: Seq<Stage>,
    i: int,
    j: int,
)
    requires
        forall|k: int| 0 <= k < stages.len() ==> #[trigger] stage_fault(
            order.system_keys(),
            order.runs_before(),
            stages,
            k,
        ) is None,
        0 <= i < j < stages.len(),
    ensures
        reaches(
            order.runs_before(),
            stage_key(order.system_keys(), stages[i])->0,
            stage_key(order.system_keys(), stages[j])->0,
        ),
    decreases j - i,
{
    let keys = order.system_keys();
    let before = order.runs_before();
    assert(stage_fault(keys, before, stages, j) is None);
    assert(stage_fault(keys, before, stages, j - 1) is None);
    if j - 1 > i {
        law_a_passed_pipeline_orders_every_later_stage(order, stages, i, j - 1);
        lemma_reaches_transitive(
            before,
            stage_key(keys, stages[i])->0,
            stage_key(keys, stages[j - 1])->0,
            stage_key(keys, stages[j])->0,
        );
    }
}

} // verus!

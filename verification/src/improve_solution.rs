//! Shorten a found solution by local graph relaxation: probe every one-move
//! neighbour of every discovered node until no probe finds anything new.

use crate::outer_layer::{spec_layer_shifts, spec_rotated};
use crate::position::{
    key_of, movement_matches, spec_movement_at, spec_movement_count, spec_position_key, Movement,
    MovementKind, Position,
};
use crate::visited_graph::{change_ok, VisitedGraph, VisitedKind, MAX_NODES};
use std::collections::VecDeque;
use vstd::prelude::*;

verus! {

broadcast use vstd::std_specs::vecdeque::group_vec_dequeue_axioms;

/// Every configuration one legal move away from `p` -- the flip and every
/// legal rotation of either layer -- has its key in the graph's index.
pub open spec fn neighbours_probed(g: VisitedGraph, p: Position) -> bool {
    &&& g.position_indexes@.contains_key(
        key_of(
            p.bottom.pieces@.subrange(0, 6) + p.top.pieces@.subrange(6, 12),
            !p.middle_solved,
            p.top.pieces@.subrange(0, 6) + p.bottom.pieces@.subrange(6, 12),
        ),
    )
    &&& forall|j: int|
        0 <= j < spec_layer_shifts(p.top.pieces@, 6).len() ==> g.position_indexes@.contains_key(
            #[trigger] key_of(
                spec_rotated(p.top.pieces@, spec_layer_shifts(p.top.pieces@, 6)[j] as int),
                p.middle_solved,
                p.bottom.pieces@,
            ),
        )
    &&& forall|j: int|
        0 <= j < spec_layer_shifts(p.bottom.pieces@, 6).len() ==> g.position_indexes@.contains_key(
            #[trigger] key_of(
                p.top.pieces@,
                p.middle_solved,
                spec_rotated(p.bottom.pieces@, spec_layer_shifts(p.bottom.pieces@, 6)[j] as int),
            ),
        )
}

/// Build the refinement graph of a found solution and drive it to its fixed
/// point: every node's one-move neighbours are probed, newly discovered
/// positions are enqueued for probing in turn, and the walk ends when no
/// probe discovers anything further.  As long as the node arena never fills,
/// every node of the returned graph -- discovered or on the base path -- has
/// had each of its one-move neighbours recorded in the graph, so no probe
/// could find anything new.
pub fn improve_solution(base_solution: &Vec<Movement>) -> (r: VisitedGraph)
    requires
        1 <= base_solution@.len() <= MAX_NODES,
        forall|i: int|
            0 <= i < base_solution@.len() ==> (#[trigger] base_solution@[i]).position.wf(),
        forall|i: int|
            0 <= i < base_solution@.len() ==> change_ok((#[trigger] base_solution@[i]).change),
    ensures
        r.wf(),
        r.nodes@.len() >= base_solution@.len(),
        forall|i: int|
            0 <= i < base_solution@.len() ==> (#[trigger] r.nodes@[i]).position
                == base_solution@[i].position,
        r.nodes@.len() < MAX_NODES ==> forall|i: int|
            0 <= i < r.nodes@.len() ==> neighbours_probed(r, (#[trigger] r.nodes@[i]).position),
{
    let mut graph = VisitedGraph::new(base_solution);

    let mut to_visit: VecDeque<usize> = VecDeque::new();
    let seeds = graph.nodes();
    let mut s: usize = 0;
    while s < seeds.len()
        invariant
            0 <= s <= seeds@.len(),
            seeds@.len() == graph.nodes@.len(),
            forall|j: int| 0 <= j < seeds@.len() ==> #[trigger] seeds@[j] == j,
            to_visit@.len() == s,
            forall|q: int| 0 <= q < to_visit@.len() ==> #[trigger] to_visit@[q] == q,
            forall|q: int| 0 <= q < to_visit@.len() ==> (#[trigger] to_visit@[q] as int) < graph.nodes@.len(),
        decreases seeds@.len() - s,
    {
        to_visit.push_back(seeds[s]);
        s = s + 1;
    }
    proof {
        assert forall|u: usize| (u as int) < graph.nodes@.len() implies to_visit@.contains(u) by {
            assert(to_visit@[u as int] == u);
        }
    }

    let ghost base_len = graph.nodes@.len();
    let ghost base_nodes = graph.nodes@;
    while to_visit.len() > 0
        invariant
            graph.wf(),
            graph.nodes@.len() >= base_len,
            base_len == base_nodes.len(),
            forall|i: int|
                0 <= i < base_len ==> (#[trigger] graph.nodes@[i]).position
                    == base_nodes[i].position,
            forall|q: int| 0 <= q < to_visit@.len() ==> (#[trigger] to_visit@[q] as int) < graph.nodes@.len(),
            graph.nodes@.len() < MAX_NODES ==> forall|u: usize|
                (u as int) < graph.nodes@.len() && !to_visit@.contains(u)
                    ==> neighbours_probed(graph, graph.nodes@[u as int].position),
        decreases 2 * (MAX_NODES - graph.nodes@.len()) + to_visit@.len(),
    {
        let ghost queue_before_pop = to_visit@;
        let pending = to_visit.pop_front().unwrap();
        proof {
            assert forall|u: usize|
                (u as int) < graph.nodes@.len() && u != pending && !to_visit@.contains(u)
                    && graph.nodes@.len() < MAX_NODES implies neighbours_probed(
                graph,
                graph.nodes@[u as int].position,
            ) by {
                assert(!queue_before_pop.contains(u)) by {
                    if queue_before_pop.contains(u) {
                        let q = choose|q: int|
                            0 <= q < queue_before_pop.len() && queue_before_pop[q] == u;
                        assert(q != 0);
                        assert(to_visit@[q - 1] == u);
                    }
                }
            }
        }
        let visited = graph.get(pending);

        let all_kind = MovementKind::all();
        let movements = visited.position().for_each_movement(all_kind);
        let ghost from = visited.position;
        let ghost measure_before: int = 2 * (MAX_NODES - graph.nodes@.len()) + to_visit@.len();
        let mut m: usize = 0;
        while m < movements.len()
            invariant
                graph.wf(),
                graph.nodes@.len() >= base_len,
                base_len == base_nodes.len(),
                forall|i: int|
                    0 <= i < base_len ==> (#[trigger] graph.nodes@[i]).position
                        == base_nodes[i].position,
                (pending as int) < graph.nodes@.len(),
                from == graph.nodes@[pending as int].position,
                from.wf(),
                all_kind.spec_rotate_top() && all_kind.spec_flip() && all_kind.spec_rotate_bottom(),
                0 <= m <= movements@.len(),
                movements@.len() == spec_movement_count(from, all_kind),
                forall|j: int|
                    0 <= j < movements@.len() ==> spec_movement_at(
                        from,
                        all_kind,
                        j,
                        #[trigger] movements@[j],
                    ),
                forall|j: int| 0 <= j < movements@.len() ==> (#[trigger] movements@[j]).position.wf(),
                forall|j: int|
                    0 <= j < movements@.len() ==> movement_matches(
                        from,
                        (#[trigger] movements@[j]).change,
                        movements@[j].position,
                    ),
                forall|q: int|
                    0 <= q < to_visit@.len() ==> (#[trigger] to_visit@[q] as int) < graph.nodes@.len(),
                graph.nodes@.len() < MAX_NODES ==> forall|j: int|
                    0 <= j < m ==> graph.position_indexes@.contains_key(
                        spec_position_key((#[trigger] movements@[j]).position),
                    ),
                graph.nodes@.len() < MAX_NODES ==> forall|u: usize|
                    (u as int) < graph.nodes@.len() && u != pending && !to_visit@.contains(u)
                        ==> neighbours_probed(graph, graph.nodes@[u as int].position),
                2 * (MAX_NODES - graph.nodes@.len()) + to_visit@.len() <= measure_before,
            decreases movements@.len() - m,
        {
            let movement = movements[m];
            proof {
                assert(movement_matches(from, movement.change, movement.position));
            }
            let ghost graph_before = graph;
            let ghost queue_before = to_visit@;
            let kind = graph.visit(movement.position, movement.change, pending);
            match kind {
                VisitedKind::New(idx) => {
                    to_visit.push_back(idx);
                },
                VisitedKind::Ignored => {
                },
                VisitedKind::Improved => {
                },
            }
            proof {
                assert forall|u: usize|
                    (u as int) < graph.nodes@.len() && u != pending && !to_visit@.contains(u)
                        && graph.nodes@.len() < MAX_NODES implies neighbours_probed(
                    graph,
                    graph.nodes@[u as int].position,
                ) by {
                    assert(!queue_before.contains(u)) by {
                        if queue_before.contains(u) {
                            let q = choose|q: int|
                                0 <= q < queue_before.len() && queue_before[q] == u;
                            assert(to_visit@[q] == u);
                        }
                    }
                    assert((u as int) < graph_before.nodes@.len()) by {
                        if (u as int) >= graph_before.nodes@.len() {
                            assert(to_visit@[to_visit@.len() - 1] == u);
                        }
                    }
                    assert(neighbours_probed(graph_before, graph_before.nodes@[u as int].position));
                    assert(graph.nodes@[u as int].position
                        == graph_before.nodes@[u as int].position);
                }
            }
            m = m + 1;
        }
        proof {
            if graph.nodes@.len() < MAX_NODES {
                lemma_probes_cover(graph, from, all_kind, movements@);
            }
            assert forall|u: usize|
                (u as int) < graph.nodes@.len() && !to_visit@.contains(u) && graph.nodes@.len()
                    < MAX_NODES implies neighbours_probed(
                graph,
                graph.nodes@[u as int].position,
            ) by {
                if u == pending {
                    assert(neighbours_probed(graph, from));
                }
            }
        }
    }
    proof {
        if graph.nodes@.len() < MAX_NODES {
            assert forall|i: int| 0 <= i < graph.nodes@.len() implies neighbours_probed(
                graph,
                (graph.nodes@[i]).position,
            ) by {
                let u = i as usize;
                assert(!to_visit@.contains(u));
                assert(neighbours_probed(graph, graph.nodes@[u as int].position));
            }
        }
    }
    graph
}

/// When the key of every enumerated movement from `p` is in the graph's
/// index, every one-move neighbour of `p` is probed.
proof fn lemma_probes_cover(
    g: VisitedGraph,
    p: Position,
    kind: MovementKind,
    movements: Seq<Movement>,
)
    requires
        p.wf(),
        kind.spec_rotate_top() && kind.spec_flip() && kind.spec_rotate_bottom(),
        movements.len() == spec_movement_count(p, kind),
        forall|j: int| 0 <= j < movements.len() ==> spec_movement_at(p, kind, j, #[trigger] movements[j]),
        forall|j: int|
            0 <= j < movements.len() ==> g.position_indexes@.contains_key(
                spec_position_key((#[trigger] movements[j]).position),
            ),
    ensures
        neighbours_probed(g, p),
{
    let nt = spec_layer_shifts(p.top.pieces@, 6).len() as int;
    let nb = spec_layer_shifts(p.bottom.pieces@, 6).len() as int;
    assert(movements.len() == nt + 1 + nb);
    assert(spec_movement_at(p, kind, nt, movements[nt]));
    assert(g.position_indexes@.contains_key(spec_position_key(movements[nt].position)));
    assert(g.position_indexes@.contains_key(
        key_of(
            p.bottom.pieces@.subrange(0, 6) + p.top.pieces@.subrange(6, 12),
            !p.middle_solved,
            p.top.pieces@.subrange(0, 6) + p.bottom.pieces@.subrange(6, 12),
        ),
    ));
    assert forall|j: int| 0 <= j < nt implies g.position_indexes@.contains_key(
        #[trigger] key_of(
            spec_rotated(p.top.pieces@, spec_layer_shifts(p.top.pieces@, 6)[j] as int),
            p.middle_solved,
            p.bottom.pieces@,
        ),
    ) by {
        assert(spec_movement_at(p, kind, j, movements[j]));
        assert(g.position_indexes@.contains_key(spec_position_key(movements[j].position)));
    }
    assert forall|j: int| 0 <= j < nb implies g.position_indexes@.contains_key(
        #[trigger] key_of(
            p.top.pieces@,
            p.middle_solved,
            spec_rotated(p.bottom.pieces@, spec_layer_shifts(p.bottom.pieces@, 6)[j] as int),
        ),
    ) by {
        assert(spec_movement_at(p, kind, nt + 1 + j, movements[nt + 1 + j]));
        assert(g.position_indexes@.contains_key(
            spec_position_key(movements[nt + 1 + j].position),
        ));
    }
}

} // verus!

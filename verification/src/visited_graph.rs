//! The refinement graph built from a found solution: a node arena with
//! adjacency lists, two-sided distance labels, and a full breadth-first
//! relabeling whenever a shortcut improves a label.

use crate::position::{spec_position_key, Movement, MovementChange, Position};
use std::collections::HashMap;
use std::collections::VecDeque;
use vstd::prelude::*;

verus! {

broadcast use vstd::std_specs::hash::group_hash_axioms, vstd::std_specs::vecdeque::group_vec_dequeue_axioms;

/// The hard cap on graph nodes, keeping indices within a machine word.
pub const MAX_NODES: usize = 0xFFFF_FFFF;

/// A graph node: a position and its distances from the two ends of the main
/// solution path.
#[derive(Debug, Clone, Copy, PartialEq, Eq)]
pub struct VisitedPosition {
    /// The position this node stands for.
    pub position: Position,
    /// Distance label from the start of the main path.
    pub start_depth: u32,
    /// Distance label from the end of the main path.
    pub end_depth: u32,
}

/// What happened when a neighbour position was offered to the graph.
#[derive(Debug, Clone, Copy)]
pub enum VisitedKind {
    /// The position was new; its fresh node index is given.
    New(usize),
    /// The position was known and nothing changed.
    Ignored,
    /// The position was a main-path node and the offer improved one of its
    /// distance labels; the graph was relabeled.
    Improved,
}

/// Whether a change can be inverted without leaving the rotation range.
pub open spec fn change_ok(c: MovementChange) -> bool {
    match c {
        MovementChange::Flip => true,
        MovementChange::RotateTop(n) => n <= 12,
        MovementChange::RotateBottom(n) => n <= 12,
    }
}

/// A label one step beyond `x`, stopping at the largest representable value.
pub open spec fn spec_sat_inc(x: u32) -> u32 {
    if x < u32::MAX {
        (x + 1) as u32
    } else {
        x
    }
}

/// The label a relabeling pass works on: the start label for the pass from
/// the start node, the end label for the pass from the end node.
pub open spec fn pass_label(n: VisitedPosition, use_start: bool) -> u32 {
    if use_start {
        n.start_depth
    } else {
        n.end_depth
    }
}

/// There is an edge from node `u` to node `v`.
pub open spec fn has_edge(edges: Seq<Vec<(usize, MovementChange)>>, u: int, v: int) -> bool {
    exists|j: int| 0 <= j < (edges[u])@.len() && ((#[trigger] (edges[u])@[j]).0 as int) == v
}

/// What one breadth-first relabeling pass from `root` did, witnessed by the
/// set `vis` of nodes it walked: the walk starts at the root and is closed
/// under edges, so it covers the root's whole component.  The root keeps its
/// label; every other walked node gets a fresh label one step beyond the
/// fresh label of the walked neighbour that discovered it; every unwalked
/// node and the pass's other label column keep their old values.
pub open spec fn relabel_evidence(
    before: Seq<VisitedPosition>,
    after: Seq<VisitedPosition>,
    edges: Seq<Vec<(usize, MovementChange)>>,
    root: int,
    use_start: bool,
    vis: Seq<bool>,
) -> bool {
    &&& after.len() == before.len()
    &&& vis.len() == before.len()
    &&& 0 <= root < before.len()
    &&& vis[root]
    &&& pass_label(after[root], use_start) == pass_label(before[root], use_start)
    &&& forall|u: int, v: int|
        0 <= u < vis.len() && 0 <= v < vis.len() && vis[u] && #[trigger] has_edge(edges, u, v)
            ==> vis[v]
    &&& forall|v: int|
        0 <= v < vis.len() && #[trigger] vis[v] && v != root ==> exists|u: int|
            0 <= u < vis.len() && vis[u] && #[trigger] has_edge(edges, u, v) && pass_label(
                after[v],
                use_start,
            ) == spec_sat_inc(pass_label(after[u], use_start))
    &&& forall|v: int|
        0 <= v < vis.len() && !(#[trigger] vis[v]) ==> pass_label(after[v], use_start)
            == pass_label(before[v], use_start)
    &&& forall|v: int|
        0 <= v < vis.len() ==> pass_label(#[trigger] after[v], !use_start) == pass_label(
            before[v],
            !use_start,
        )
}

/// Whether offering `position`, reached from node `parent`, would improve a
/// main-path node: the position is known, its node sits on the main path,
/// and the route through `parent` strictly lowers one of its labels.
pub open spec fn offer_improves(g: VisitedGraph, position: Position, parent: int) -> bool {
    let key = spec_position_key(position);
    &&& g.position_indexes@.contains_key(key)
    &&& {
        let idx = g.position_indexes@[key] as int;
        let node = g.nodes@[idx];
        let parent_node = g.nodes@[parent];
        &&& node.start_depth + node.end_depth == g.main_length
        &&& (spec_sat_inc(parent_node.start_depth) < node.start_depth || spec_sat_inc(
            parent_node.end_depth,
        ) < node.end_depth)
    }
}

/// The solution graph: a node arena, adjacency lists, a key index, the two
/// ends of the main path, and the main path's current length.
#[derive(Debug)]
pub struct VisitedGraph {
    /// The node arena.
    pub nodes: Vec<VisitedPosition>,
    /// Adjacency: for each node, its outgoing edges.
    pub edges: Vec<Vec<(usize, MovementChange)>>,
    /// Node lookup by dense position key.
    pub position_indexes: HashMap<u64, usize>,
    /// The node holding the start of the main path.
    pub start: usize,
    /// The node holding the end of the main path.
    pub end: usize,
    /// The current length of the main path.
    pub main_length: u32,
}

impl VisitedGraph {
    /// The arena, adjacency lists, key index, and path ends are consistent.
    pub open spec fn wf(self) -> bool {
        &&& 1 <= self.nodes@.len() <= MAX_NODES
        &&& self.edges@.len() == self.nodes@.len()
        &&& self.start < self.nodes@.len()
        &&& self.end < self.nodes@.len()
        &&& forall|k: u64|
            self.position_indexes@.contains_key(k) ==> (#[trigger] self.position_indexes@[k]
                as int) < self.nodes@.len()
        &&& forall|i: int, j: int|
            0 <= i < self.edges@.len() && 0 <= j < (self.edges@[i])@.len() ==> ((#[trigger] (
            self.edges@[i])@[j]).0 as int) < self.nodes@.len()
        &&& forall|i: int| 0 <= i < self.nodes@.len() ==> (#[trigger] self.nodes@[i]).position.wf()
    }

    /// Build the graph from a found solution path: one node per path
    /// position, labeled with its distances along the path, and consecutive
    /// path nodes joined by a forward edge carrying the move and a backward
    /// edge carrying its inverse.
    pub fn new(solution: &Vec<Movement>) -> (r: Self)
        requires
            1 <= solution@.len() <= MAX_NODES,
            forall|i: int| 0 <= i < solution@.len() ==> (#[trigger] solution@[i]).position.wf(),
            forall|i: int| 0 <= i < solution@.len() ==> change_ok((#[trigger] solution@[i]).change),
        ensures
            r.wf(),
            r.nodes@.len() == solution@.len(),
            forall|i: int|
                0 <= i < solution@.len() ==> (#[trigger] r.nodes@[i]).position == solution@[i].position,
            forall|i: int|
                0 <= i < solution@.len() ==> (#[trigger] r.nodes@[i]).start_depth == i,
            forall|i: int|
                0 <= i < solution@.len() ==> (#[trigger] r.nodes@[i]).end_depth == solution@.len()
                    - 1 - i,
            r.main_length == solution@.len() - 1,
            r.start == 0,
            r.end == solution@.len() - 1,
            forall|i: int|
                1 <= i < solution@.len() ==> (#[trigger] (r.edges@[i - 1])@)[(r.edges@[i
                    - 1])@.len() - 1] == ((i as usize), solution@[i].change),
            forall|i: int|
                1 <= i < solution@.len() ==> (#[trigger] (r.edges@[i])@)[0] == (((i - 1) as usize),
                solution@[i].change.spec_inversed()),
            forall|i: int|
                0 <= i < solution@.len() ==> (#[trigger] (r.edges@[i])@).len() == (if 0 < i < solution@.len() - 1 {
                    2int
                } else if solution@.len() == 1 {
                    0int
                } else {
                    1int
                }),
    {
        let main_length = (solution.len() - 1) as u32;

        let mut nodes: Vec<VisitedPosition> = Vec::new();
        let mut edges: Vec<Vec<(usize, MovementChange)>> = Vec::new();
        let mut position_indexes: HashMap<u64, usize> = HashMap::new();

        let mut i: usize = 0;
        while i < solution.len()
            invariant
                1 <= solution@.len() <= MAX_NODES,
                main_length == solution@.len() - 1,
                forall|q: int| 0 <= q < solution@.len() ==> (#[trigger] solution@[q]).position.wf(),
                forall|q: int|
                    0 <= q < solution@.len() ==> change_ok((#[trigger] solution@[q]).change),
                0 <= i <= solution@.len(),
                nodes@.len() == i,
                edges@.len() == i,
                forall|q: int|
                    0 <= q < i ==> (#[trigger] nodes@[q]).position == solution@[q].position,
                forall|q: int| 0 <= q < i ==> (#[trigger] nodes@[q]).start_depth == q,
                forall|q: int|
                    0 <= q < i ==> (#[trigger] nodes@[q]).end_depth == solution@.len() - 1 - q,
                forall|k: u64|
                    position_indexes@.contains_key(k) ==> (#[trigger] position_indexes@[k] as int)
                        < i,
                forall|q: int, j: int|
                    0 <= q < i && 0 <= j < (edges@[q])@.len() ==> ((#[trigger] (edges@[q])@[j]).0
                        as int) < i,
                forall|q: int|
                    1 <= q < i ==> (#[trigger] (edges@[q - 1])@)[(edges@[q - 1])@.len() - 1] == ((
                    q as usize), solution@[q].change),
                forall|q: int|
                    1 <= q < i ==> (#[trigger] (edges@[q])@)[0] == (((q - 1) as usize),
                    solution@[q].change.spec_inversed()),
                forall|q: int|
                    0 <= q < i ==> (#[trigger] (edges@[q])@).len() == (if 0 < q < i - 1 {
                        2int
                    } else if q == 0 && i >= 2 {
                        1int
                    } else if q == i - 1 && q > 0 {
                        1int
                    } else {
                        0int
                    }),
            decreases solution@.len() - i,
        {
            let movement = solution[i];
            nodes.push(
                VisitedPosition {
                    position: movement.position,
                    start_depth: i as u32,
                    end_depth: main_length - i as u32,
                },
            );
            edges.push(Vec::new());
            position_indexes.insert(movement.position.as_bytes(), i);

            if i > 0 {
                let parent = i - 1;
                edges[parent].push((i, movement.change));
                edges[i].push((parent, movement.change.inversed()));
            }
            i = i + 1;
        }

        VisitedGraph {
            nodes,
            edges,
            position_indexes,
            start: 0,
            end: solution.len() - 1,
            main_length,
        }
    }

    /// Offer a neighbour `position`, reached from node `parent` by `change`,
    /// to the graph.  An unseen position always becomes a new node with an
    /// edge pair to its parent (while the arena has room); a known main-path
    /// node whose labels the new route improves is always rewired and the
    /// whole graph relabeled; everything else leaves the graph untouched.
    #[verifier::rlimit(100)]
    #[verifier::spinoff_prover]
    pub fn visit(&mut self, position: Position, change: MovementChange, parent: usize) -> (r:
        VisitedKind)
        requires
            old(self).wf(),
            (parent as int) < old(self).nodes@.len(),
            position.wf(),
            change_ok(change),
        ensures
            final(self).wf(),
            final(self).nodes@.len() >= old(self).nodes@.len(),
            final(self).start == old(self).start,
            final(self).end == old(self).end,
            forall|i: int|
                0 <= i < old(self).nodes@.len() ==> (#[trigger] final(self).nodes@[i]).position
                    == old(self).nodes@[i].position,
            forall|k: u64|
                old(self).position_indexes@.contains_key(k)
                    ==> final(self).position_indexes@.contains_key(k)
                    && final(self).position_indexes@[k] == old(self).position_indexes@[k],
            final(self).nodes@.len() < MAX_NODES ==> final(self).position_indexes@.contains_key(
                spec_position_key(position),
            ),
            match r {
                VisitedKind::New(idx) => {
                    &&& !old(self).position_indexes@.contains_key(spec_position_key(position))
                    &&& old(self).nodes@.len() < MAX_NODES
                    &&& (idx as int) == old(self).nodes@.len()
                    &&& final(self).nodes@ == old(self).nodes@.push(
                        VisitedPosition {
                            position,
                            start_depth: spec_sat_inc(old(self).nodes@[parent as int].start_depth),
                            end_depth: spec_sat_inc(old(self).nodes@[parent as int].end_depth),
                        },
                    )
                    &&& final(self).position_indexes@ == old(self).position_indexes@.insert(
                        spec_position_key(position),
                        idx,
                    )
                    &&& (final(self).edges@[parent as int])@
                        == (old(self).edges@[parent as int])@.push((idx, change))
                    &&& (final(self).edges@[idx as int])@ == seq![
                        ((parent, change.spec_inversed())),
                    ]
                    &&& forall|i: int|
                        0 <= i < old(self).edges@.len() && i != parent ==> (final(self).edges@[i])@
                            == (#[trigger] old(self).edges@[i])@
                    &&& final(self).main_length == old(self).main_length
                },
                VisitedKind::Ignored => {
                    &&& *final(self) == *old(self)
                    &&& {
                        ||| (old(self).position_indexes@.contains_key(spec_position_key(position))
                            && !offer_improves(*old(self), position, parent as int))
                        ||| (!old(self).position_indexes@.contains_key(
                            spec_position_key(position),
                        ) && old(self).nodes@.len() == MAX_NODES)
                    }
                },
                VisitedKind::Improved => {
                    &&& offer_improves(*old(self), position, parent as int)
                    &&& final(self).nodes@.len() == old(self).nodes@.len()
                    &&& final(self).position_indexes@ == old(self).position_indexes@
                    &&& {
                        let idx = old(self).position_indexes@[spec_position_key(position)] as int;
                        &&& ((final(self).edges@[parent as int])@
                            == (old(self).edges@[parent as int])@.push(((idx as usize), change)) || (
                        parent as int == idx && (final(self).edges@[parent as int])@
                            == (old(self).edges@[parent as int])@.push(((idx as usize), change)).push(
                            ((parent, change.spec_inversed())),
                        )))
                        &&& forall|i: int|
                            0 <= i < old(self).edges@.len() && i != parent && i != idx
                                ==> (final(self).edges@[i])@ == (#[trigger] old(self).edges@[i])@
                    }
                    &&& final(self).main_length
                        == final(self).nodes@[final(self).start as int].end_depth
                    &&& exists|mid: Seq<VisitedPosition>, vis1: Seq<bool>, vis2: Seq<bool>|
                        #![trigger relabel_evidence(relabel_input(*old(self), position, parent as int), mid, final(self).edges@, final(self).start as int, true, vis1), relabel_evidence(mid, final(self).nodes@, final(self).edges@, final(self).end as int, false, vis2)]
                        {
                            &&& relabel_evidence(
                                relabel_input(*old(self), position, parent as int),
                                mid,
                                final(self).edges@,
                                final(self).start as int,
                                true,
                                vis1,
                            )
                            &&& relabel_evidence(
                                mid,
                                final(self).nodes@,
                                final(self).edges@,
                                final(self).end as int,
                                false,
                                vis2,
                            )
                        }
                },
            },
    {
        let parent_node = self.nodes[parent];
        let new_start_depth = saturating_inc(parent_node.start_depth);
        let new_end_depth = saturating_inc(parent_node.end_depth);

        let key = position.as_bytes();
        let existing = self.position_indexes.get(&key);
        match existing {
            None => {
                if self.nodes.len() < MAX_NODES {
                    let idx = self.nodes.len();
                    self.nodes.push(
                        VisitedPosition {
                            position,
                            start_depth: new_start_depth,
                            end_depth: new_end_depth,
                        },
                    );
                    self.edges.push(Vec::new());
                    self.edges[parent].push((idx, change));
                    self.edges[idx].push((parent, change.inversed()));
                    self.position_indexes.insert(key, idx);
                    proof {
                        assert((self.edges@[idx as int])@ =~= seq![
                            ((parent, change.spec_inversed())),
                        ]);
                    }
                    VisitedKind::New(idx)
                } else {
                    // the arena is full; ignore the offer rather than hand
                    // out an index past the cap
                    VisitedKind::Ignored
                }
            },
            Some(idx_ref) => {
                let idx = *idx_ref;
                let prev_node = self.nodes[idx];
                let prev_was_main = prev_node.start_depth as u64 + prev_node.end_depth as u64
                    == self.main_length as u64;
                if prev_was_main && (new_start_depth < prev_node.start_depth || new_end_depth
                    < prev_node.end_depth) {
                    self.nodes[idx] = VisitedPosition {
                        position: prev_node.position,
                        start_depth: new_start_depth,
                        end_depth: new_end_depth,
                    };
                    self.edges[parent].push((idx, change));
                    self.edges[idx].push((parent, change.inversed()));
                    let ghost pre_reset = *self;
                    self.reset_distances();
                    proof {
                        assert(pre_reset.nodes@ =~= relabel_input(
                            *old(self),
                            position,
                            parent as int,
                        ));
                        let (mid, vis1, vis2) = choose|
                            mid: Seq<VisitedPosition>,
                            vis1: Seq<bool>,
                            vis2: Seq<bool>,
                        |
                            #![trigger relabel_evidence(pre_reset.nodes@, mid, self.edges@, self.start as int, true, vis1), relabel_evidence(mid, self.nodes@, self.edges@, self.end as int, false, vis2)]
                            {
                                &&& relabel_evidence(
                                    pre_reset.nodes@,
                                    mid,
                                    self.edges@,
                                    self.start as int,
                                    true,
                                    vis1,
                                )
                                &&& relabel_evidence(
                                    mid,
                                    self.nodes@,
                                    self.edges@,
                                    self.end as int,
                                    false,
                                    vis2,
                                )
                            };
                        assert(relabel_evidence(
                            relabel_input(*old(self), position, parent as int),
                            mid,
                            self.edges@,
                            self.start as int,
                            true,
                            vis1,
                        ));
                        assert(relabel_evidence(
                            mid,
                            self.nodes@,
                            self.edges@,
                            self.end as int,
                            false,
                            vis2,
                        ));
                    }
                    VisitedKind::Improved
                } else {
                    VisitedKind::Ignored
                }
            },
        }
    }

    /// The indices of all nodes, in arena order.
    pub fn nodes(&self) -> (r: Vec<usize>)
        ensures
            r@.len() == self.nodes@.len(),
            forall|i: int| 0 <= i < r@.len() ==> #[trigger] r@[i] == i,
    {
        let mut out: Vec<usize> = Vec::new();
        let mut i: usize = 0;
        while i < self.nodes.len()
            invariant
                0 <= i <= self.nodes@.len(),
                out@.len() == i,
                forall|j: int| 0 <= j < i ==> #[trigger] out@[j] == j,
            decreases self.nodes@.len() - i,
        {
            out.push(i);
            i = i + 1;
        }
        out
    }

    /// The node with the given index.
    pub fn get(&self, node: usize) -> (r: VisitedPosition)
        requires
            (node as int) < self.nodes@.len(),
        ensures
            r == self.nodes@[node as int],
    {
        self.nodes[node]
    }

    /// How many nodes the graph holds.
    pub fn node_count(&self) -> (r: usize)
        ensures
            r == self.nodes@.len(),
    {
        self.nodes.len()
    }

    /// The current length of the main path.
    pub fn main_length(&self) -> (r: u32)
        ensures
            r == self.main_length,
    {
        self.main_length
    }

    /// Relabel the graph by a breadth-first walk from the start node and one
    /// from the end node, then refresh the main path length from the start
    /// node's end label.
    fn reset_distances(&mut self)
        requires
            old(self).wf(),
        ensures
            final(self).wf(),
            final(self).nodes@.len() == old(self).nodes@.len(),
            final(self).start == old(self).start,
            final(self).end == old(self).end,
            final(self).edges@ == old(self).edges@,
            final(self).position_indexes@ == old(self).position_indexes@,
            forall|i: int|
                0 <= i < old(self).nodes@.len() ==> (#[trigger] final(self).nodes@[i]).position
                    == old(self).nodes@[i].position,
            final(self).main_length == final(self).nodes@[final(self).start as int].end_depth,
            exists|mid: Seq<VisitedPosition>, vis1: Seq<bool>, vis2: Seq<bool>|
                #![trigger relabel_evidence(old(self).nodes@, mid, final(self).edges@, final(self).start as int, true, vis1), relabel_evidence(mid, final(self).nodes@, final(self).edges@, final(self).end as int, false, vis2)]
                {
                    &&& relabel_evidence(
                        old(self).nodes@,
                        mid,
                        final(self).edges@,
                        final(self).start as int,
                        true,
                        vis1,
                    )
                    &&& relabel_evidence(
                        mid,
                        final(self).nodes@,
                        final(self).edges@,
                        final(self).end as int,
                        false,
                        vis2,
                    )
                },
    {
        let start = self.start;
        let end = self.end;
        self.bfs_relabel(start, true);
        let ghost mid = self.nodes@;
        self.bfs_relabel(end, false);
        self.main_length = self.nodes[self.start].end_depth;
    }

    /// One breadth-first relabeling pass from `root`, writing start labels
    /// when `use_start` is set and end labels otherwise.  Every node of the
    /// root's component except the root itself gets a fresh label, one step
    /// beyond the label of the node that discovered it; nothing else changes.
    #[verifier::rlimit(100)]
    #[verifier::spinoff_prover]
    fn bfs_relabel(&mut self, root: usize, use_start: bool)
        requires
            old(self).wf(),
            (root as int) < old(self).nodes@.len(),
        ensures
            final(self).wf(),
            final(self).nodes@.len() == old(self).nodes@.len(),
            final(self).start == old(self).start,
            final(self).end == old(self).end,
            final(self).edges@ == old(self).edges@,
            final(self).position_indexes@ == old(self).position_indexes@,
            final(self).main_length == old(self).main_length,
            forall|i: int|
                0 <= i < old(self).nodes@.len() ==> (#[trigger] final(self).nodes@[i]).position
                    == old(self).nodes@[i].position,
            exists|vis: Seq<bool>|
                relabel_evidence(
                    old(self).nodes@,
                    final(self).nodes@,
                    final(self).edges@,
                    root as int,
                    use_start,
                    vis,
                ),
    {
        let ghost before = old(self).nodes@;
        let n = self.nodes.len();
        let mut visited: Vec<bool> = Vec::new();
        let mut i: usize = 0;
        while i < n
            invariant
                0 <= i <= n,
                visited@.len() == i,
                forall|j: int| 0 <= j < i ==> #[trigger] visited@[j] == false,
            decreases n - i,
        {
            visited.push(false);
            i = i + 1;
        }

        let mut to_visit: VecDeque<usize> = VecDeque::new();
        to_visit.push_back(root);
        let ghost init_v = visited@;
        visited[root] = true;
        proof {
            lemma_count_false_update(init_v, root as int, n as int);
            lemma_count_false_bounds(visited@, n as int);
            assert(to_visit@[0] == root);
            assert(to_visit@.contains(root));
        }

        while to_visit.len() > 0
            invariant
                self.wf(),
                self.nodes@.len() == n,
                before.len() == n,
                self.nodes@.len() == old(self).nodes@.len(),
                before == old(self).nodes@,
                (root as int) < n,
                self.start == old(self).start,
                self.end == old(self).end,
                self.edges@ == old(self).edges@,
                self.position_indexes@ == old(self).position_indexes@,
                self.main_length == old(self).main_length,
                forall|i2: int|
                    0 <= i2 < n ==> (#[trigger] self.nodes@[i2]).position == before[i2].position,
                visited@.len() == n,
                count_false(visited@, n as int) >= 0,
                visited@[root as int],
                pass_label(self.nodes@[root as int], use_start) == pass_label(
                    before[root as int],
                    use_start,
                ),
                forall|q: int| 0 <= q < to_visit@.len() ==> (#[trigger] to_visit@[q] as int) < n,
                forall|q: int| 0 <= q < to_visit@.len() ==> visited@[#[trigger] to_visit@[q] as int],
                forall|v: int|
                    0 <= v < n && #[trigger] visited@[v] && v != root ==> exists|u: int|
                        0 <= u < n && visited@[u] && #[trigger] has_edge(self.edges@, u, v)
                            && pass_label(self.nodes@[v], use_start) == spec_sat_inc(
                            pass_label(self.nodes@[u], use_start),
                        ),
                forall|v: int|
                    0 <= v < n && !(#[trigger] visited@[v]) ==> pass_label(
                        self.nodes@[v],
                        use_start,
                    ) == pass_label(before[v], use_start),
                forall|v: int|
                    0 <= v < n ==> pass_label(#[trigger] self.nodes@[v], !use_start) == pass_label(
                        before[v],
                        !use_start,
                    ),
                forall|u: usize, j: int|
                    (u as int) < n && visited@[u as int] && !to_visit@.contains(u) && 0 <= j < (
                    self.edges@[u as int])@.len() ==> visited@[((#[trigger] (
                    self.edges@[u as int])@[j]).0) as int],
            decreases 2 * count_false(visited@, n as int) + to_visit@.len(),
        {
            let ghost queue_before_pop = to_visit@;
            let idx = to_visit.pop_front().unwrap();
            proof {
                assert forall|u: usize|
                    u != idx && !to_visit@.contains(u) implies !queue_before_pop.contains(u) by {
                    if queue_before_pop.contains(u) {
                        let q = choose|q: int|
                            0 <= q < queue_before_pop.len() && queue_before_pop[q] == u;
                        assert(q != 0);
                        assert(to_visit@[q - 1] == u);
                    }
                }
            }
            let cur_node = self.nodes[idx];
            let depth = if use_start {
                cur_node.start_depth
            } else {
                cur_node.end_depth
            };

            let edge_count = self.edges[idx].len();
            let mut e: usize = 0;
            let ghost count_snapshot = count_false(visited@, n as int);
            let ghost qlen_snapshot = to_visit@.len() as int;
            while e < edge_count
                invariant
                    self.wf(),
                    self.nodes@.len() == n,
                    before.len() == n,
                    self.nodes@.len() == old(self).nodes@.len(),
                    before == old(self).nodes@,
                    (root as int) < n,
                    self.start == old(self).start,
                    self.end == old(self).end,
                    self.edges@ == old(self).edges@,
                    self.position_indexes@ == old(self).position_indexes@,
                    self.main_length == old(self).main_length,
                    forall|i2: int|
                        0 <= i2 < n ==> (#[trigger] self.nodes@[i2]).position
                            == before[i2].position,
                    visited@.len() == n,
                    count_false(visited@, n as int) >= 0,
                    visited@[root as int],
                    pass_label(self.nodes@[root as int], use_start) == pass_label(
                        before[root as int],
                        use_start,
                    ),
                    (idx as int) < n,
                    visited@[idx as int],
                    depth == pass_label(self.nodes@[idx as int], use_start),
                    edge_count == (self.edges@[idx as int])@.len(),
                    0 <= e <= edge_count,
                    forall|q: int| 0 <= q < to_visit@.len() ==> (#[trigger] to_visit@[q] as int) < n,
                    forall|q: int|
                        0 <= q < to_visit@.len() ==> visited@[#[trigger] to_visit@[q] as int],
                    forall|v: int|
                        0 <= v < n && #[trigger] visited@[v] && v != root ==> exists|u: int|
                            0 <= u < n && visited@[u] && #[trigger] has_edge(self.edges@, u, v)
                                && pass_label(self.nodes@[v], use_start) == spec_sat_inc(
                                pass_label(self.nodes@[u], use_start),
                            ),
                    forall|v: int|
                        0 <= v < n && !(#[trigger] visited@[v]) ==> pass_label(
                            self.nodes@[v],
                            use_start,
                        ) == pass_label(before[v], use_start),
                    forall|v: int|
                        0 <= v < n ==> pass_label(#[trigger] self.nodes@[v], !use_start)
                            == pass_label(before[v], !use_start),
                    forall|j: int|
                        0 <= j < e ==> visited@[((#[trigger] (self.edges@[idx as int])@[j]).0)
                            as int],
                    forall|u: usize, j: int|
                        (u as int) < n && (u as int) != idx && visited@[u as int]
                            && !to_visit@.contains(u) && 0 <= j < (self.edges@[u as int])@.len()
                            ==> visited@[((#[trigger] (self.edges@[u as int])@[j]).0) as int],
                    2 * count_false(visited@, n as int) + to_visit@.len() <= 2 * count_snapshot
                        + qlen_snapshot,
                decreases edge_count - e,
            {
                let ghost inner_visited_before = visited@;
                let ghost inner_queue_before = to_visit@;
                let next = self.edges[idx][e].0;
                if !visited[next] {
                    let ghost old_v = visited@;
                    visited[next] = true;
                    proof {
                        lemma_count_false_update(old_v, next as int, n as int);
                        lemma_count_false_bounds(visited@, n as int);
                        assert(count_false(visited@, n as int) == count_false(old_v, n as int)
                            - 1);
                        assert(has_edge(self.edges@, idx as int, next as int));
                    }
                    let new_depth = saturating_inc(depth);
                    let target_node = self.nodes[next];
                    if use_start {
                        self.nodes[next] = VisitedPosition {
                            position: target_node.position,
                            start_depth: new_depth,
                            end_depth: target_node.end_depth,
                        };
                    } else {
                        self.nodes[next] = VisitedPosition {
                            position: target_node.position,
                            start_depth: target_node.start_depth,
                            end_depth: new_depth,
                        };
                    }
                    to_visit.push_back(next);
                }
                proof {
                    assert forall|u: usize, j: int|
                        (u as int) < n && (u as int) != idx && visited@[u as int]
                            && !to_visit@.contains(u) && 0 <= j < (self.edges@[u as int])@.len()
                            implies visited@[(((self.edges@[u as int])@[j]).0) as int] by {
                        assert(!inner_queue_before.contains(u)) by {
                            if inner_queue_before.contains(u) {
                                let q = choose|q: int|
                                    0 <= q < inner_queue_before.len() && inner_queue_before[q]
                                        == u;
                                assert(to_visit@.contains(u)) by {
                                    assert(to_visit@[q] == u);
                                }
                            }
                        }
                        if !inner_visited_before[next as int] {
                            assert(to_visit@[to_visit@.len() - 1] == next);
                            assert(to_visit@.contains(next));
                            assert(u != next);
                        }
                        assert(inner_visited_before[u as int]);
                        assert(inner_visited_before[(((self.edges@[u as int])@[j]).0) as int]);
                    }
                }
                e = e + 1;
            }
        }
        proof {
            assert(relabel_evidence(
                before,
                self.nodes@,
                self.edges@,
                root as int,
                use_start,
                visited@,
            ));
        }
    }
}

/// The node arena as the relabeling passes of an improving offer see it:
/// the offered node's labels already overwritten by the route through
/// `parent`.
pub open spec fn relabel_input(g: VisitedGraph, position: Position, parent: int) -> Seq<
    VisitedPosition,
> {
    let idx = g.position_indexes@[spec_position_key(position)] as int;
    g.nodes@.update(
        idx,
        VisitedPosition {
            position: g.nodes@[idx].position,
            start_depth: spec_sat_inc(g.nodes@[parent].start_depth),
            end_depth: spec_sat_inc(g.nodes@[parent].end_depth),
        },
    )
}

/// Add one to a label, stopping at the largest representable value.
fn saturating_inc(x: u32) -> (r: u32)
    ensures
        r == spec_sat_inc(x),
{
    if x < u32::MAX {
        x + 1
    } else {
        x
    }
}

/// How many of the first `m` flags are clear.
pub open spec fn count_false(s: Seq<bool>, m: int) -> int
    decreases m,
{
    if m <= 0 {
        0
    } else {
        count_false(s, m - 1) + if s[m - 1] {
            0int
        } else {
            1int
        }
    }
}

/// A clear count is never negative and never exceeds the range counted.
proof fn lemma_count_false_bounds(s: Seq<bool>, m: int)
    ensures
        0 <= count_false(s, m),
        m >= 0 ==> count_false(s, m) <= m,
    decreases m,
{
    if m > 0 {
        lemma_count_false_bounds(s, m - 1);
    }
}

/// Setting a clear flag lowers the clear count by one.
proof fn lemma_count_false_update(s: Seq<bool>, i: int, m: int)
    requires
        0 <= i < m <= s.len(),
        !s[i],
    ensures
        count_false(s.update(i, true), m) == count_false(s, m) - 1,
    decreases m,
{
    if m - 1 == i {
        lemma_count_false_eq(s.update(i, true), s, m - 1);
    } else {
        lemma_count_false_update(s, i, m - 1);
    }
}

/// Flag counts only depend on the flags in range.
proof fn lemma_count_false_eq(x: Seq<bool>, y: Seq<bool>, m: int)
    requires
        m <= x.len(),
        m <= y.len(),
        forall|j: int| 0 <= j < m ==> x[j] == y[j],
    ensures
        count_false(x, m) == count_false(y, m),
    decreases m,
{
    if m > 0 {
        lemma_count_false_eq(x, y, m - 1);
    }
}

impl VisitedPosition {
    /// The position this node stands for.
    pub fn position(self) -> (r: Position)
        ensures
            r == self.position,
    {
        self.position
    }

    /// Distance label from the start of the main path.
    pub fn start_depth(self) -> (r: u32)
        ensures
            r == self.start_depth,
    {
        self.start_depth
    }

    /// Distance label from the end of the main path.
    pub fn end_depth(self) -> (r: u32)
        ensures
            r == self.end_depth,
    {
        self.end_depth
    }
}

} // verus!

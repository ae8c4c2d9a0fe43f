//! Best-first search over the move graph: a budgeted warm-up pass followed
//! by round-robin partitioned frontier passes, all sharing one dedup set,
//! one visit log prefix, and one solution slot.

use crate::faster::position::{
    lemma_neighbours_sound, lemma_splittable_scorable, move_ok, solved_pieces, spec_apply_change,
    spec_neighbours, spec_valid_change, Movement, NeighboursStack, Position,
};
use crate::faster::rotatable_layer::splittable;
use crate::piece::pack_pieces;
use crate::prefix_set::PrefixSet;
use vstd::prelude::*;

verus! {

/// A search-tree node: the movement that reached a configuration and the
/// index of the node it was reached from (the root has none).
#[derive(Debug, Clone, Copy)]
struct VisitedPosition {
    movement: Movement,
    prev_index: Option<u32>,
}

/// A frontier record: maximize score, then minimize depth, then minimize
/// index.
#[derive(Debug, Clone, Copy, PartialEq, Eq, Structural)]
struct Enqueued {
    score: u8,
    depth: u16,
    index: u32,
}

/// Whether frontier record `a` has strictly lower priority than `b`.
spec fn enq_lt(a: Enqueued, b: Enqueued) -> bool {
    ||| a.score < b.score
    ||| (a.score == b.score && a.depth > b.depth)
    ||| (a.score == b.score && a.depth == b.depth && a.index > b.index)
}

/// The state shared by every pass of one search run: the dedup set, the
/// common prefix of the visit log, and the solution slot.
struct SharedSearch {
    seen_positions: PrefixSet,
    visits: Vec<VisitedPosition>,
    is_solved: bool,
    solution: Option<Vec<Movement>>,
}

/// The private state of one search pass: its own frontier and its own
/// suffix of the visit log, indexed from `base` on.
struct Frontier {
    base: usize,
    iterations: usize,
    visits: Vec<VisitedPosition>,
    queue: Vec<Enqueued>,
    rejections: usize,
}

/// A well-formed visit log: the root node holds the initial configuration,
/// every other node was reached from an earlier node by a legal move, and
/// every recorded configuration can be split further.
spec fn visits_ok(visits: Seq<VisitedPosition>, initial: Position) -> bool {
    &&& visits.len() >= 1
    &&& visits[0].movement.position == initial
    &&& visits[0].prev_index is None
    &&& forall|i: int|
        0 <= i < visits.len() ==> splittable((#[trigger] visits[i]).movement.position.pieces)
    &&& forall|i: int|
        1 <= i < visits.len() ==> {
            let v = #[trigger] visits[i];
            &&& v.prev_index is Some
            &&& (v.prev_index.unwrap() as int) < i
            &&& spec_valid_change(
                visits[v.prev_index.unwrap() as int].movement.position.pieces,
                v.movement.change,
            )
            &&& v.movement.position.pieces == spec_apply_change(
                visits[v.prev_index.unwrap() as int].movement.position.pieces,
                v.movement.change,
            )
        }
}

/// A move sequence that solves the puzzle from `initial`: it starts at the
/// initial configuration, each following movement performs a legal move from
/// the configuration before it and lands exactly on the configuration that
/// move reaches, and the final configuration is the solved one.
pub open spec fn solution_ok(ms: Seq<Movement>, initial: Position) -> bool {
    &&& ms.len() >= 1
    &&& ms[0].position == initial
    &&& ms[ms.len() - 1].position.pieces == pack_pieces(solved_pieces())
    &&& forall|i: int|
        1 <= i < ms.len() ==> {
            &&& spec_valid_change(ms[i - 1].position.pieces, (#[trigger] ms[i]).change)
            &&& ms[i].position.pieces == spec_apply_change(ms[i - 1].position.pieces, ms[i].change)
        }
}

impl SharedSearch {
    /// The shared state is sound for a run from `initial`: the log is well
    /// formed and any stored solution really solves the puzzle.
    spec fn inv(self, initial: Position) -> bool {
        &&& self.seen_positions.wf()
        &&& visits_ok(self.visits@, initial)
        &&& self.is_solved <==> self.solution is Some
        &&& self.solution matches Some(ms) ==> solution_ok(ms@, initial)
    }
}

impl Frontier {
    /// The pass state fits the shared state: its log suffix starts where the
    /// shared prefix ends, the combined log is well formed, and every queued
    /// record points into the combined log.
    spec fn inv(self, shared: SharedSearch, initial: Position) -> bool {
        &&& self.base == shared.visits@.len()
        &&& self.base + self.visits@.len() <= 0x1_0000_0000
        &&& visits_ok(shared.visits@ + self.visits@, initial)
        &&& forall|i: int|
            0 <= i < self.queue@.len() ==> ((#[trigger] self.queue@[i]).index as int) < self.base
                + self.visits@.len()
    }
}

/// Remove and return a highest-priority record from the frontier.
fn pop_max(queue: &mut Vec<Enqueued>) -> (r: Option<Enqueued>)
    ensures
        match r {
            None => old(queue)@.len() == 0 && final(queue)@ == old(queue)@,
            Some(e) => {
                &&& old(queue)@.len() >= 1
                &&& exists|i: int|
                    0 <= i < old(queue)@.len() && e == old(queue)@[i] && final(queue)@ == old(
                        queue,
                    )@.remove(i)
                &&& forall|j: int| 0 <= j < old(queue)@.len() ==> !enq_lt(e, #[trigger] old(queue)@[j])
            },
        },
{
    if queue.len() == 0 {
        return None;
    }
    let mut best: usize = 0;
    let mut i: usize = 1;
    while i < queue.len()
        invariant
            queue@ == old(queue)@,
            queue@.len() >= 1,
            0 <= best < i <= queue@.len(),
            forall|j: int| 0 <= j < i ==> !enq_lt(queue@[best as int], #[trigger] queue@[j]),
        decreases queue@.len() - i,
    {
        let c = queue[i];
        let b = queue[best];
        let better = c.score > b.score || (c.score == b.score && (c.depth < b.depth || (c.depth
            == b.depth && c.index < b.index)));
        if better {
            best = i;
        }
        i = i + 1;
    }
    let e = queue.remove(best);
    Some(e)
}

/// Fetch the visit with the given global index, resolving it into the shared
/// prefix or the pass's own suffix.
fn get_visit(shared: &SharedSearch, fr: &Frontier, index: u32) -> (r: VisitedPosition)
    requires
        fr.base == shared.visits@.len(),
        (index as int) < fr.base + fr.visits@.len(),
    ensures
        r == (shared.visits@ + fr.visits@)[index as int],
{
    let index = index as usize;
    if index < shared.visits.len() {
        shared.visits[index]
    } else {
        fr.visits[index - shared.visits.len()]
    }
}

/// Record one candidate movement: if its configuration was never seen
/// before, append it to the pass's log suffix and frontier; otherwise count
/// it as a rejection.
#[verifier::rlimit(100)]
#[verifier::spinoff_prover]
fn enqueue(
    shared: &mut SharedSearch,
    fr: &mut Frontier,
    parent: Enqueued,
    movement: Movement,
    Ghost(initial): Ghost<Position>,
)
    requires
        old(shared).inv(initial),
        old(fr).inv(*old(shared), initial),
        (parent.index as int) < old(fr).base + old(fr).visits@.len(),
        move_ok(
            (old(shared).visits@ + old(fr).visits@)[parent.index as int].movement.position.pieces,
            movement,
        ),
    ensures
        final(shared).inv(initial),
        final(fr).inv(*final(shared), initial),
        final(shared).visits@ == old(shared).visits@,
        final(shared).is_solved == old(shared).is_solved,
        final(shared).solution == old(shared).solution,
        final(fr).base == old(fr).base,
        final(fr).iterations == old(fr).iterations,
        old(fr).visits@.is_prefix_of(final(fr).visits@),
        final(fr).visits@.len() == old(fr).visits@.len() || final(fr).visits@.len() == old(
            fr,
        ).visits@.len() + 1,
        final(fr).queue@.len() - old(fr).queue@.len() == final(fr).visits@.len() - old(
            fr,
        ).visits@.len(),
{
    let ghost combined = old(shared).visits@ + old(fr).visits@;
    let mut accepted = false;
    if shared.seen_positions.insert(movement.position().as_bytes()) {
        let shared_len = shared.visits.len();
        let next_index_opt = shared_len.checked_add(fr.visits.len());
        match next_index_opt {
            Some(next_index) => {
                if next_index < u32::MAX as usize {
                    accepted = true;
                    proof {
                        lemma_splittable_scorable(movement.position.pieces);
                    }
                    fr.visits.push(VisitedPosition { movement, prev_index: Some(parent.index) });
                    let depth = if parent.depth < u16::MAX {
                        parent.depth + 1
                    } else {
                        u16::MAX
                    };
                    fr.queue.push(
                        Enqueued {
                            score: movement.position().score(),
                            depth,
                            index: next_index as u32,
                        },
                    );
                    proof {
                        let newc = shared.visits@ + fr.visits@;
                        assert(newc =~= combined.push(
                            VisitedPosition { movement, prev_index: Some(parent.index) },
                        ));
                    }
                }
            },
            None => {
            },
        }
    }
    if !accepted {
        // the configuration was already seen, or the log is full and the
        // node is dropped rather than recorded under a corrupt index
        if fr.rejections < usize::MAX {
            fr.rejections = fr.rejections + 1;
        }
    }
}

/// Reconstruct the move sequence that reaches `node` by walking parent
/// indices back to the root, and store it as the solution.
fn mark_solved(
    shared: &mut SharedSearch,
    fr: &Frontier,
    node: VisitedPosition,
    Ghost(node_index): Ghost<int>,
    Ghost(initial): Ghost<Position>,
)
    requires
        old(shared).inv(initial),
        fr.inv(*old(shared), initial),
        0 <= node_index < old(shared).visits@.len() + fr.visits@.len(),
        node == (old(shared).visits@ + fr.visits@)[node_index],
        node.movement.position.pieces == pack_pieces(solved_pieces()),
    ensures
        final(shared).inv(initial),
        final(shared).visits@ == old(shared).visits@,
        final(shared).is_solved,
        final(shared).solution is Some,
{
    let ghost combined = old(shared).visits@ + fr.visits@;
    let mut movements: Vec<Movement> = Vec::new();
    let mut solution = node;
    let ghost mut cur: int = node_index;

    movements.push(solution.movement);
    while solution.prev_index.is_some()
        invariant
            shared.inv(initial),
            *shared == *old(shared),
            fr.inv(*shared, initial),
            combined == shared.visits@ + fr.visits@,
            0 <= cur < combined.len(),
            solution == combined[cur],
            movements@.len() >= 1,
            movements@[0] == node.movement,
            movements@[movements@.len() - 1] == solution.movement,
            forall|i: int|
                0 <= i < movements@.len() - 1 ==> {
                    &&& spec_valid_change(
                        (#[trigger] movements@[i + 1]).position.pieces,
                        movements@[i].change,
                    )
                    &&& movements@[i].position.pieces == spec_apply_change(
                        movements@[i + 1].position.pieces,
                        movements@[i].change,
                    )
                },
        decreases cur,
    {
        let prev_index = solution.prev_index.unwrap();
        proof {
            assert(cur >= 1) by {
                if cur == 0 {
                    assert(combined[0].prev_index is None);
                }
            }
            assert((prev_index as int) < cur);
        }
        solution = get_visit(shared, fr, prev_index);
        proof {
            cur = prev_index as int;
        }
        movements.push(solution.movement);
    }
    // the chain ended at the root, which holds the initial configuration
    proof {
        assert(cur == 0) by {
            if cur >= 1 {
                assert(combined[cur].prev_index is Some);
            }
        }
    }

    // reverse into start-to-end order
    let mut ordered: Vec<Movement> = Vec::new();
    let total = movements.len();
    let mut i: usize = 0;
    while i < total
        invariant
            total == movements@.len(),
            0 <= i <= total,
            ordered@.len() == i,
            forall|j: int| 0 <= j < i ==> ordered@[j] == movements@[total - 1 - j],
        decreases total - i,
    {
        ordered.push(movements[total - 1 - i]);
        i = i + 1;
    }
    proof {
        let total_g = movements@.len() as int;
        assert(ordered@[0] == movements@[total_g - 1]);
        assert(ordered@[ordered@.len() - 1] == movements@[0]);
        assert forall|i: int| 1 <= i < ordered@.len() implies {
            &&& spec_valid_change(ordered@[i - 1].position.pieces, (#[trigger] ordered@[i]).change)
            &&& ordered@[i].position.pieces == spec_apply_change(
                ordered@[i - 1].position.pieces,
                ordered@[i].change,
            )
        } by {
            let j = total_g - 1 - i;
            assert(ordered@[i] == movements@[j]);
            assert(ordered@[i - 1] == movements@[j + 1]);
            assert(spec_valid_change(movements@[j + 1].position.pieces, movements@[j].change));
        }
        assert(solution_ok(ordered@, initial));
    }

    shared.is_solved = true;
    shared.solution = Some(ordered);
}

/// A pass whose whole frontier is a single record pointing at the solved
/// configuration, with at least one iteration of budget: such a pass always
/// ends solved.
spec fn solo_solved_start(
    shared: SharedSearch,
    fr: Frontier,
    use_budget: bool,
    budget: int,
) -> bool {
    &&& fr.queue@.len() == 1
    &&& (fr.queue@[0].index as int) < fr.base + fr.visits@.len()
    &&& fr.base == shared.visits@.len()
    &&& ((shared.visits@ + fr.visits@)[fr.queue@[0].index as int]).movement.position.pieces
        == pack_pieces(solved_pieces())
    &&& (!use_budget || budget >= 1)
}

/// Run one search pass: repeatedly pop the best frontier record, stop if its
/// configuration is solved, otherwise expand all its neighbours.  The pass
/// also stops when the frontier runs dry, when another pass already solved
/// the puzzle, or -- if `use_budget` is set -- when the iteration budget is
/// reached.
#[verifier::rlimit(100)]
fn run_search(
    shared: &mut SharedSearch,
    fr: &mut Frontier,
    solved_position: Position,
    budget: usize,
    use_budget: bool,
    stack: &mut NeighboursStack,
    Ghost(initial): Ghost<Position>,
)
    requires
        old(shared).inv(initial),
        old(fr).inv(*old(shared), initial),
        solved_position.pieces == pack_pieces(solved_pieces()),
    ensures
        final(shared).inv(initial),
        final(fr).inv(*final(shared), initial),
        final(shared).visits@ == old(shared).visits@,
        final(shared).is_solved || final(fr).queue@.len() == 0 || (use_budget
            && final(fr).iterations >= budget),
        old(shared).is_solved ==> final(shared).is_solved,
        solo_solved_start(*old(shared), *old(fr), use_budget, budget as int)
            ==> final(shared).is_solved,
{
    let ghost solo = solo_solved_start(*old(shared), *old(fr), use_budget, budget as int);
    loop
        invariant
            shared.inv(initial),
            fr.inv(*shared, initial),
            shared.visits@ == old(shared).visits@,
            solved_position.pieces == pack_pieces(solved_pieces()),
            old(shared).is_solved ==> shared.is_solved,
            solo == solo_solved_start(*old(shared), *old(fr), use_budget, budget as int),
            solo && !shared.is_solved ==> fr.queue@ == old(fr).queue@ && fr.base == old(fr).base
                && fr.visits@ == old(fr).visits@,
        decreases 2 * (0x1_0000_0000 - fr.base - fr.visits@.len()) + fr.queue@.len(),
    {
        if shared.is_solved {
            return ;
        }
        let popped = pop_max(&mut fr.queue);
        match popped {
            None => {
                return ;
            },
            Some(enqueued) => {
                if fr.iterations < usize::MAX {
                    fr.iterations = fr.iterations + 1;
                }
                let next = get_visit(shared, fr, enqueued.index);

                if next.movement.position() == solved_position {
                    mark_solved(
                        shared,
                        fr,
                        next,
                        Ghost(enqueued.index as int),
                        Ghost(initial),
                    );
                    return ;
                }

                next.movement.position().neighbours(stack);
                proof {
                    lemma_neighbours_sound(next.movement.position.pieces);
                }
                let ghost parent_bits = next.movement.position.pieces;
                let ghost measure_before: int = 2 * (0x1_0000_0000 - fr.base - fr.visits@.len())
                    + fr.queue@.len();
                let mut idx: usize = 0;
                while idx < stack.neighbours.len()
                    invariant
                        shared.inv(initial),
                        fr.inv(*shared, initial),
                        shared.visits@ == old(shared).visits@,
                        2 * (0x1_0000_0000 - fr.base - fr.visits@.len()) + fr.queue@.len()
                            <= measure_before,
                        0 <= idx <= stack.neighbours@.len(),
                        stack.neighbours@ == spec_neighbours(parent_bits),
                        (enqueued.index as int) < fr.base + fr.visits@.len(),
                        parent_bits == (shared.visits@
                            + fr.visits@)[enqueued.index as int].movement.position.pieces,
                        forall|i: int|
                            0 <= i < stack.neighbours@.len() ==> move_ok(
                                parent_bits,
                                #[trigger] stack.neighbours@[i],
                            ),
                    decreases stack.neighbours@.len() - idx,
                {
                    let new_movement = stack.neighbours[idx];
                    let ghost combined_before = shared.visits@ + fr.visits@;
                    enqueue(shared, fr, enqueued, new_movement, Ghost(initial));
                    proof {
                        assert((shared.visits@ + fr.visits@)[enqueued.index as int]
                            == combined_before[enqueued.index as int]);
                    }
                    idx = idx + 1;
                }

                if use_budget && fr.iterations >= budget {
                    return ;
                }
            },
        }
    }
}

/// Progress counters of one search run, for the caller's telemetry: how
/// many records were popped, how many candidate movements were rejected as
/// already seen, how many distinct configurations were recorded, and how
/// many frontier records were still queued when the run ended.  Each counter
/// stops at the largest machine word rather than wrap.
pub struct SearchStats {
    /// Frontier records popped, over the warm-up and all passes.
    pub iterations: usize,
    /// Candidate movements dropped because their configuration was seen.
    pub rejections: usize,
    /// Distinct configurations recorded in the dedup set.
    pub distinct_seen: usize,
    /// Frontier records still queued when the run ended.
    pub frontier: usize,
}

/// Search for a move sequence that turns `initial_position` into the solved
/// configuration, as [`find_solution`] does, and also report the run's
/// progress counters.
pub fn find_solution_with_stats(
    initial_position: Position,
    warm_up: usize,
    num_threads: usize,
) -> (r: (Option<Vec<Movement>>, SearchStats))
    requires
        splittable(initial_position.pieces),
        num_threads >= 1,
    ensures
        r.0 matches Some(ms) ==> solution_ok(ms@, initial_position),
        initial_position.pieces == pack_pieces(solved_pieces()) && warm_up >= 1 ==> r.0 is Some,
{
    let solved_position = Position::solved();
    let mut neighbours = NeighboursStack::new();

    let mut seen_positions = PrefixSet::new();
    seen_positions.insert(initial_position.as_bytes());

    let initial_movement = Movement::initial_movement(initial_position);
    let mut visits: Vec<VisitedPosition> = Vec::new();
    visits.push(VisitedPosition { prev_index: None, movement: initial_movement });

    let mut shared = SharedSearch {
        seen_positions,
        visits,
        is_solved: false,
        solution: None,
    };

    proof {
        lemma_splittable_scorable(initial_position.pieces);
        assert(visits_ok(shared.visits@, initial_position));
    }

    let mut frontier = Frontier {
        base: 1,
        iterations: 0,
        visits: Vec::new(),
        queue: Vec::new(),
        rejections: 0,
    };
    frontier.queue.push(Enqueued { score: initial_position.score(), depth: 0, index: 0 });
    proof {
        assert(shared.visits@ + frontier.visits@ =~= shared.visits@);
    }

    proof {
        if initial_position.pieces == pack_pieces(solved_pieces()) && warm_up >= 1 {
            assert(solo_solved_start(shared, frontier, true, warm_up as int));
        }
    }
    run_search(
        &mut shared,
        &mut frontier,
        solved_position,
        warm_up,
        true,
        &mut neighbours,
        Ghost(initial_position),
    );

    if shared.is_solved {
        let distinct_seen = shared.seen_positions.len();
        let stats = SearchStats {
            iterations: frontier.iterations,
            rejections: frontier.rejections,
            distinct_seen,
            frontier: frontier.queue.len(),
        };
        return (shared.solution, stats);
    }
    let mut iterations = frontier.iterations;
    let mut rejections = frontier.rejections;

    // keep the warm-up log as the shared prefix that every pass can read
    shared.visits.append(&mut frontier.visits);
    proof {
        assert(visits_ok(shared.visits@, initial_position));
    }

    // round-robin the remaining frontier across the passes
    let mut pass_queues: Vec<Vec<Enqueued>> = Vec::new();
    let mut t: usize = 0;
    while t < num_threads
        invariant
            0 <= t <= num_threads,
            pass_queues@.len() == t,
            forall|q: int| 0 <= q < t ==> (#[trigger] pass_queues@[q])@.len() == 0,
        decreases num_threads - t,
    {
        pass_queues.push(Vec::new());
        t = t + 1;
    }
    let mut remaining_frontier: usize = 0;
    let ghost shared_len = shared.visits@.len();
    let mut qi: usize = 0;
    while frontier.queue.len() > 0
        invariant
            num_threads >= 1,
            pass_queues@.len() == num_threads,
            0 <= qi < num_threads,
            forall|i: int|
                0 <= i < frontier.queue@.len() ==> ((#[trigger] frontier.queue@[i]).index as int)
                    < shared_len,
            forall|q: int, i: int|
                0 <= q < num_threads && 0 <= i < (pass_queues@[q])@.len() ==> ((#[trigger] (
                pass_queues@[q])@[i]).index as int) < shared_len,
        decreases frontier.queue@.len(),
    {
        let popped = pop_max(&mut frontier.queue);
        let e = popped.unwrap();
        pass_queues[qi].push(e);
        qi = (qi + 1) % num_threads;
    }

    // run the passes in turn against the shared state; each checks the
    // solved flag before every pop, so later passes stop at once after a
    // solution is found
    while pass_queues.len() > 0
        invariant
            shared.inv(initial_position),
            shared.visits@.len() == shared_len,
            shared_len <= 0x1_0000_0000,
            solved_position.pieces == pack_pieces(solved_pieces()),
            forall|q: int, i: int|
                0 <= q < pass_queues@.len() && 0 <= i < (pass_queues@[q])@.len() ==> ((#[trigger] (
                pass_queues@[q])@[i]).index as int) < shared_len,
        decreases pass_queues@.len(),
    {
        let queue = pass_queues.pop().unwrap();
        let mut pass = Frontier {
            base: shared.visits.len(),
            iterations: 0,
            visits: Vec::new(),
            queue,
            rejections: 0,
        };
        proof {
            assert(shared.visits@ + pass.visits@ =~= shared.visits@);
        }
        run_search(
            &mut shared,
            &mut pass,
            solved_position,
            0,
            false,
            &mut neighbours,
            Ghost(initial_position),
        );
        iterations = saturating_add(iterations, pass.iterations);
        rejections = saturating_add(rejections, pass.rejections);
        remaining_frontier = saturating_add(remaining_frontier, pass.queue.len());
    }

    let distinct_seen = shared.seen_positions.len();
    let stats = SearchStats { iterations, rejections, distinct_seen, frontier: remaining_frontier };
    (shared.solution, stats)
}

/// Search for a move sequence that turns `initial_position` into the solved
/// configuration: a budgeted single-pass warm-up, then -- if the warm-up did
/// not already solve the puzzle -- the remaining frontier is round-robin
/// partitioned into `num_threads` passes that run against the shared dedup
/// set and visit log prefix.  A `None` result only means the search gave up;
/// the caller may retry with a larger budget.
pub fn find_solution(initial_position: Position, warm_up: usize, num_threads: usize) -> (r: Option<
    Vec<Movement>,
>)
    requires
        splittable(initial_position.pieces),
        num_threads >= 1,
    ensures
        r matches Some(ms) ==> solution_ok(ms@, initial_position),
        initial_position.pieces == pack_pieces(solved_pieces()) && warm_up >= 1 ==> r is Some,
{
    let (solution, _) = find_solution_with_stats(initial_position, warm_up, num_threads);
    solution
}

/// Add two counters, stopping at the largest machine word.
fn saturating_add(a: usize, b: usize) -> (r: usize)
    ensures
        r == (if a + b <= usize::MAX {
            a + b
        } else {
            usize::MAX as int
        }),
{
    match a.checked_add(b) {
        Some(v) => v,
        None => usize::MAX,
    }
}

} // verus!

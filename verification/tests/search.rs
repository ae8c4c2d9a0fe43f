use ball_puzzle::faster::position::{NeighboursStack, Position};
use ball_puzzle::find_solution::{find_solution, find_solution_with_stats};
use ball_puzzle::position::{Movement, MovementChange, MovementKind};
use ball_puzzle::prefix_set::PrefixSet;
use ball_puzzle::priority_queue::PriorityQueue;
use ball_puzzle::telemetry::format_big_int;
use ball_puzzle::visited_graph::{VisitedGraph, VisitedKind};

#[test]
fn find_solution_from_solved_is_immediate() {
    let solved = Position::solved();
    let solution = find_solution(solved, 10, 1).unwrap();
    assert_eq!(solution.len(), 1);
    assert_eq!(solution[0].position(), solved);
}

#[test]
fn find_solution_reports_progress_counters() {
    let solved = Position::solved();
    let (solution, stats) = find_solution_with_stats(solved, 10, 1);
    assert!(solution.is_some());
    assert_eq!(stats.iterations, 1);
    assert_eq!(stats.distinct_seen, 1);
    assert_eq!(stats.frontier, 0);
    assert_eq!(stats.rejections, 0);
}

#[test]
fn find_solution_one_move_scramble() {
    let solved = Position::solved();
    let mut stack = NeighboursStack::new();
    solved.neighbours(&mut stack);

    // pick a neighbour that really moved away from the solved configuration
    let mut scramble = solved;
    for m in stack.neighbours() {
        if m.position() != solved {
            scramble = m.position();
            break;
        }
    }
    assert!(scramble != solved);

    let solution = find_solution(scramble, 400, 2).expect("expected a solution to be found");
    assert!(!solution.is_empty());
    assert_eq!(solution[0].position(), scramble);
    assert_eq!(solution.last().unwrap().position(), solved);

    // every step of the returned path is a real one-move neighbour
    for w in 1..solution.len() {
        let prev = solution[w - 1].position();
        prev.neighbours(&mut stack);
        let step = solution[w];
        assert!(stack
            .neighbours()
            .iter()
            .any(|m| m.position() == step.position() && m.change() == step.change()));
    }
}

#[test]
fn dedup_set_reports_each_key_once() {
    let mut set = PrefixSet::new();
    assert!(set.insert(42));
    for _ in 0..100 {
        assert!(!set.insert(42));
    }
    assert!(set.insert(43));
    assert!(!set.insert(43));
    assert!(set.insert(0));
    assert!(set.insert(u64::MAX));
    assert_eq!(set.len(), 4);
}

#[test]
fn priority_queue_pops_highest_level_in_insertion_order() {
    let mut queue: PriorityQueue<u32> = PriorityQueue::new(3);
    queue.push(1, 10);
    queue.push(3, 30);
    queue.push(1, 11);
    queue.push(0, 1);
    assert_eq!(queue.len(), 4);
    assert_eq!(queue.pop(), Some((3, 30)));
    assert_eq!(queue.pop(), Some((1, 10)));
    assert_eq!(queue.pop(), Some((1, 11)));
    assert_eq!(queue.pop(), Some((0, 1)));
    assert_eq!(queue.pop(), None);
    assert_eq!(queue.len(), 0);
}

#[test]
fn solution_graph_relaxes_an_improved_route() {
    // a five-node main path: flip, rotate, flip, rotate
    let a = ball_puzzle::position::Position::solved();
    let step_ab = a
        .for_each_movement(MovementKind::all())
        .into_iter()
        .find(|m| m.change == MovementChange::Flip)
        .unwrap();
    let b = step_ab.position;
    let step_bc = b
        .for_each_movement(MovementKind::all())
        .into_iter()
        .find(|m| matches!(m.change, MovementChange::RotateTop(_)))
        .unwrap();
    let c = step_bc.position;
    let step_cd = c
        .for_each_movement(MovementKind::all())
        .into_iter()
        .find(|m| m.change == MovementChange::Flip)
        .unwrap();
    let d = step_cd.position;
    let step_de = d
        .for_each_movement(MovementKind::all())
        .into_iter()
        .find(|m| matches!(m.change, MovementChange::RotateBottom(_)))
        .unwrap();

    let base = vec![
        Movement { position: a, next_kind: MovementKind::all(), change: MovementChange::Flip },
        step_ab,
        step_bc,
        step_cd,
        step_de,
    ];
    let mut graph = VisitedGraph::new(&base);
    assert_eq!(graph.node_count(), 5);
    assert_eq!(graph.main_length(), 4);
    assert_eq!(graph.get(0).start_depth(), 0);
    assert_eq!(graph.get(0).end_depth(), 4);
    assert_eq!(graph.get(4).start_depth(), 4);
    assert_eq!(graph.get(4).end_depth(), 0);

    // a position never seen becomes a new node
    let step_new = b
        .for_each_movement(MovementKind::all())
        .into_iter()
        .find(|m| matches!(m.change, MovementChange::RotateBottom(_)))
        .unwrap();
    match graph.visit(step_new.position, step_new.change, 1) {
        VisitedKind::New(idx) => assert_eq!(idx, 5),
        _ => panic!("expected a new node"),
    }

    // offering it again changes nothing
    assert!(matches!(
        graph.visit(step_new.position, step_new.change, 1),
        VisitedKind::Ignored
    ));

    // a shortcut from the start straight to the path's middle node shortens
    // the relabeled main path
    assert!(matches!(
        graph.visit(c, step_bc.change, 0),
        VisitedKind::Improved
    ));
    assert_eq!(graph.main_length(), 3);
}

#[test]
fn format_big_int_uses_suffixes_at_one_decimal() {
    assert_eq!(format_big_int(0), "0");
    assert_eq!(format_big_int(7), "7");
    assert_eq!(format_big_int(999), "999");
    assert_eq!(format_big_int(1000), "1.0k");
    assert_eq!(format_big_int(1049), "1.0k");
    assert_eq!(format_big_int(1050), "1.0k");
    assert_eq!(format_big_int(1150), "1.2k");
    assert_eq!(format_big_int(1500), "1.5k");
    assert_eq!(format_big_int(999949), "999.9k");
    assert_eq!(format_big_int(1000000), "1.0M");
    assert_eq!(format_big_int(1234567), "1.2M");
    assert_eq!(format_big_int(999999999), "1000.0M");
    assert_eq!(format_big_int(1000000000), "1.0G");
    assert_eq!(format_big_int(2500000000), "2.5G");
}

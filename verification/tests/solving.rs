use klotski::goal::Goal;
use klotski::graph::{Block, Board};
use klotski::search::{is_neighbor, is_solution, solve, successors, MOVE_COST};

fn block(x: u32, y: u32, w: u32, h: u32) -> Block {
    Block::new((x, y), (w, h)).unwrap()
}

fn board(w: u32, h: u32, blocks: Vec<Block>) -> Board {
    Board::new((w, h), blocks).unwrap()
}

fn klotski() -> Board {
    board(
        4,
        5,
        vec![
            block(2, 0, 2, 2),
            block(0, 0, 1, 2),
            block(1, 0, 1, 2),
            block(0, 3, 1, 2),
            block(1, 3, 1, 2),
            block(1, 2, 2, 1),
            block(2, 3, 1, 1),
            block(2, 4, 1, 1),
            block(3, 3, 1, 1),
            block(3, 4, 1, 1),
        ],
    )
}

fn solved_grid() -> Board {
    let mut blocks = Vec::new();
    for y in 0..4 {
        for x in 0..4 {
            blocks.push(block(x, y, 1, 1));
        }
    }
    board(4, 4, blocks)
}

#[test]
fn single_target_goal_is_met_at_its_position() {
    let goal = Goal::SingleTarget { index: 1, position: (2, 3) };
    assert!(goal.is_goal(&board(4, 4, vec![block(0, 0, 1, 1), block(2, 3, 1, 1)])));
    assert!(!goal.is_goal(&board(4, 4, vec![block(2, 3, 1, 1), block(0, 0, 1, 1)])));
    assert!(!goal.is_goal(&board(4, 4, vec![block(0, 0, 1, 1), block(2, 2, 1, 1)])));
}

#[test]
fn single_target_goal_without_its_block_is_never_met() {
    let goal = Goal::SingleTarget { index: 2, position: (0, 0) };
    let b = board(4, 4, vec![block(0, 0, 1, 1), block(1, 0, 1, 1)]);
    assert!(!goal.is_goal(&b));
    assert_eq!(goal.estimate(&b), 0);
}

#[test]
fn single_target_estimate_is_the_distance_of_that_block() {
    let goal = Goal::SingleTarget { index: 0, position: (1, 3) };
    assert_eq!(goal.estimate(&klotski()), 4);
    let other = Goal::SingleTarget { index: 9, position: (0, 0) };
    assert_eq!(other.estimate(&klotski()), 7);
}

#[test]
fn full_match_goal_is_met_by_the_target_alone() {
    let target = board(4, 4, vec![block(0, 0, 1, 1), block(1, 0, 1, 1)]);
    let goal = Goal::FullMatch { target: target.clone() };
    assert!(goal.is_goal(&target));
    assert!(!goal.is_goal(&board(4, 4, vec![block(1, 0, 1, 1), block(0, 0, 1, 1)])));
    assert!(!goal.is_goal(&board(4, 5, vec![block(0, 0, 1, 1), block(1, 0, 1, 1)])));
    assert!(!goal.is_goal(&board(4, 4, vec![block(0, 0, 1, 1)])));
}

#[test]
fn full_match_estimate_is_the_sum_of_the_distances() {
    let target = board(4, 4, vec![block(0, 0, 1, 1), block(1, 0, 1, 1), block(3, 3, 1, 1)]);
    let goal = Goal::FullMatch { target };
    let b = board(4, 4, vec![block(1, 0, 1, 1), block(0, 0, 1, 1), block(0, 1, 1, 1)]);
    assert_eq!(goal.estimate(&b), 1 + 1 + 5);
    let fewer = board(4, 4, vec![block(2, 2, 1, 1)]);
    assert_eq!(goal.estimate(&fewer), 4);
}

#[test]
fn estimate_is_zero_at_the_goal() {
    let target = solved_grid();
    assert_eq!(Goal::FullMatch { target: target.clone() }.estimate(&target), 0);
    let goal = Goal::SingleTarget { index: 5, position: (1, 1) };
    assert!(goal.is_goal(&target));
    assert_eq!(goal.estimate(&target), 0);
}

#[test]
fn estimate_at_the_far_corners_of_the_coordinate_range() {
    let b = Board { size: (1, 1), blocks: vec![Block { position: (i32::MIN, i32::MIN), size: (1, 1) }] };
    let goal = Goal::SingleTarget { index: 0, position: (i32::MAX, i32::MAX) };
    assert_eq!(goal.estimate(&b), 2 * (u32::MAX as u128));
}

#[test]
fn successors_are_the_neighbors_at_unit_cost() {
    let b = board(4, 4, vec![block(0, 0, 1, 1)]);
    let found = successors(&b);
    assert_eq!(MOVE_COST, 1);
    assert_eq!(
        found,
        vec![
            (board(4, 4, vec![block(1, 0, 1, 1)]), 1),
            (board(4, 4, vec![block(0, 1, 1, 1)]), 1),
        ]
    );
}

#[test]
fn neighbor_test_accepts_one_move_only() {
    let b = board(4, 4, vec![block(0, 0, 1, 1), block(1, 0, 1, 1)]);
    assert!(is_neighbor(&b, &board(4, 4, vec![block(0, 1, 1, 1), block(1, 0, 1, 1)])));
    assert!(is_neighbor(&b, &board(4, 4, vec![block(0, 0, 1, 1), block(2, 0, 1, 1)])));
    assert!(!is_neighbor(&b, &b));
    assert!(!is_neighbor(&b, &board(4, 4, vec![block(0, 2, 1, 1), block(1, 0, 1, 1)])));
    assert!(!is_neighbor(&b, &board(4, 4, vec![block(0, 1, 1, 1), block(1, 1, 1, 1)])));
    assert!(!is_neighbor(&b, &board(4, 4, vec![block(1, 0, 1, 1), block(1, 0, 1, 1)])));
    assert!(!is_neighbor(&b, &board(5, 4, vec![block(0, 1, 1, 1), block(1, 0, 1, 1)])));
}

#[test]
fn solution_test_follows_the_path() {
    let start = board(3, 1, vec![block(0, 0, 1, 1)]);
    let middle = board(3, 1, vec![block(1, 0, 1, 1)]);
    let end = board(3, 1, vec![block(2, 0, 1, 1)]);
    let goal = Goal::SingleTarget { index: 0, position: (2, 0) };
    assert!(is_solution(&start, &goal, &vec![start.clone(), middle.clone(), end.clone()]));
    assert!(!is_solution(&start, &goal, &vec![]));
    assert!(!is_solution(&start, &goal, &vec![start.clone(), end.clone()]));
    assert!(!is_solution(&start, &goal, &vec![start.clone(), middle.clone()]));
    assert!(!is_solution(&start, &goal, &vec![middle.clone(), end.clone()]));
    assert!(is_solution(&end, &goal, &vec![end.clone()]));
}

#[test]
fn solved_grid_is_its_own_solution() {
    let start = solved_grid();
    let goal = Goal::FullMatch { target: solved_grid() };
    assert!(goal.is_goal(&start));
    let (path, cost) = solve(&start, &goal).unwrap();
    assert_eq!(path, vec![start]);
    assert_eq!(cost, 0);
}

#[test]
fn short_puzzle_is_solved_in_the_fewest_moves() {
    let start = board(3, 2, vec![block(0, 0, 1, 1), block(1, 0, 1, 1)]);
    let goal = Goal::SingleTarget { index: 0, position: (2, 0) };
    let (path, cost) = solve(&start, &goal).unwrap();
    assert_eq!(cost, 3);
    assert_eq!(path.len(), 4);
    assert_eq!(path[0], start);
    assert_eq!(path[3].blocks[0].position, (2, 0));
    assert!(is_solution(&start, &goal, &path));
}

#[test]
fn full_match_puzzle_is_solved() {
    let start = board(2, 2, vec![block(0, 0, 1, 1), block(1, 0, 1, 1), block(0, 1, 1, 1)]);
    let target = board(2, 2, vec![block(1, 0, 1, 1), block(1, 1, 1, 1), block(0, 0, 1, 1)]);
    let goal = Goal::FullMatch { target: target.clone() };
    let (path, cost) = solve(&start, &goal).unwrap();
    assert_eq!(path[0], start);
    assert_eq!(path[path.len() - 1], target);
    assert_eq!(cost, (path.len() - 1) as u128);
    assert_eq!(cost, 3);
}

#[test]
fn puzzle_without_a_solution_has_none() {
    let start = board(2, 1, vec![block(0, 0, 1, 1), block(1, 0, 1, 1)]);
    assert_eq!(solve(&start, &Goal::SingleTarget { index: 0, position: (1, 0) }), None);
    let roomy = board(3, 3, vec![block(0, 0, 1, 1)]);
    assert_eq!(solve(&roomy, &Goal::SingleTarget { index: 0, position: (3, 3) }), None);
    assert_eq!(solve(&roomy, &Goal::SingleTarget { index: 1, position: (0, 0) }), None);
}

#[test]
fn klotski_target_block_reaches_its_place() {
    let start = klotski();
    let goal = Goal::SingleTarget { index: 0, position: (1, 3) };
    let (path, cost) = solve(&start, &goal).unwrap();
    assert!(!path.is_empty());
    assert_eq!(path[0], start);
    assert_eq!(path[path.len() - 1].blocks[0].position, (1, 3));
    assert_eq!(cost, (path.len() - 1) as u128);
    assert!(goal.estimate(&start) <= cost);
    assert!(is_solution(&start, &goal, &path));
    let deltas = [(0, -1), (1, 0), (0, 1), (-1, 0)];
    for pair in path.windows(2) {
        assert_eq!(pair[0].size, pair[1].size);
        assert_eq!(pair[0].blocks.len(), pair[1].blocks.len());
        let changed: Vec<usize> =
            (0..pair[0].blocks.len()).filter(|&i| pair[0].blocks[i] != pair[1].blocks[i]).collect();
        assert_eq!(changed.len(), 1);
        let before = pair[0].blocks[changed[0]];
        let after = pair[1].blocks[changed[0]];
        assert_eq!(before.size, after.size);
        let step = (after.position.0 - before.position.0, after.position.1 - before.position.1);
        assert!(deltas.contains(&step));
        assert!(pair[1].is_valid());
    }
}

#[test]
fn one_move_changes_the_estimate_by_one_at_most() {
    let start = klotski();
    let mut target = klotski();
    target.blocks.swap(6, 9);
    target.blocks[0].position = (1, 3);
    let goals = [
        Goal::SingleTarget { index: 0, position: (1, 3) },
        Goal::SingleTarget { index: 5, position: (0, 0) },
        Goal::FullMatch { target },
    ];
    for goal in goals.iter() {
        let here = goal.estimate(&start);
        for (next, _) in successors(&start) {
            let there = goal.estimate(&next);
            assert!(there <= here + 1);
            assert!(here <= there + 1);
            for (after, _) in successors(&next) {
                let further = goal.estimate(&after);
                assert!(further <= there + 1);
                assert!(there <= further + 1);
            }
        }
    }
}

#[test]
fn estimate_never_exceeds_the_moves_of_a_solution() {
    let start = board(3, 2, vec![block(0, 0, 1, 1), block(1, 0, 1, 1)]);
    let target = board(3, 2, vec![block(2, 1, 1, 1), block(0, 0, 1, 1)]);
    let goal = Goal::FullMatch { target };
    assert_eq!(goal.estimate(&start), 4);
    let (path, cost) = solve(&start, &goal).unwrap();
    assert!(cost >= 4);
    for (done, reached) in path.iter().enumerate() {
        assert!(goal.estimate(reached) <= cost - done as u128);
    }
}

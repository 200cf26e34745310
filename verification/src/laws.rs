//! What holds of blocks, of moves, of the neighbours of a grid, of a goal's
//! estimate and of solutions.

use vstd::prelude::*;
use crate::graph::{Block, Board, BoardError, Direction, Neighbors};
use crate::goal::{distance_sum, Goal};
use crate::grid::Grid;
use crate::search::solves;

verus! {

/// A legal move of a valid grid gives a valid grid: the moved block is
/// inside the grid and overlaps no other block, and the others have not moved.
pub proof fn lemma_move_keeps_validity(grid: Grid, index: int, direction: Direction)
    requires
        grid.valid(),
        grid.move_result(index, direction).is_ok(),
    ensures
        grid.move_result(index, direction).unwrap().valid(),
{
    let moved = grid.blocks[index].shifted(direction);
    let next = grid.move_result(index, direction).unwrap();
    assert(!grid.collides(index, moved));
    assert(moved.within(grid.size));
    assert forall|i: int| 0 <= i < next.blocks.len() implies (#[trigger] next.blocks[i]).within(
        next.size,
    ) by {
        if i != index {
            assert(next.blocks[i] == grid.blocks[i]);
        }
    }
    assert forall|i: int, j: int|
        0 <= i < next.blocks.len() && 0 <= j < next.blocks.len() && i != j implies !(
        #[trigger] next.blocks[i]).spec_overlaps_with(#[trigger] next.blocks[j]) by {
        if i == index {
            assert(!moved.spec_overlaps_with(grid.blocks[j]));
        } else if j == index {
            assert(!moved.spec_overlaps_with(grid.blocks[i]));
        } else {
            assert(!grid.blocks[i].spec_overlaps_with(grid.blocks[j]));
        }
    }
}

/// Overlap does not depend on which of the two blocks is asked.
pub proof fn lemma_overlap_symmetric(a: Block, b: Block)
    ensures
        a.spec_overlaps_with(b) == b.spec_overlaps_with(a),
{
}

/// Two blocks of positive extent overlap exactly when some cell is
/// occupied by both.
pub proof fn lemma_overlap_is_a_shared_cell(a: Block, b: Block)
    requires
        a.size.0 >= 1 && a.size.1 >= 1,
        b.size.0 >= 1 && b.size.1 >= 1,
    ensures
        a.spec_overlaps_with(b) <==> exists|x: int, y: int| #[trigger]
            a.covers(x, y) && b.covers(x, y),
{
    if a.spec_overlaps_with(b) {
        let x: int = if a.position.0 >= b.position.0 {
            a.position.0 as int
        } else {
            b.position.0 as int
        };
        let y: int = if a.position.1 >= b.position.1 {
            a.position.1 as int
        } else {
            b.position.1 as int
        };
        assert(a.covers(x, y) && b.covers(x, y));
    }
}

/// On a grid whose blocks do not overlap, a cell is occupied by one block
/// at most.
pub proof fn lemma_cell_has_one_block(grid: Grid, i: int, j: int, x: int, y: int)
    requires
        grid.disjoint(),
        0 <= i < grid.blocks.len(),
        0 <= j < grid.blocks.len(),
        grid.blocks[i].covers(x, y),
        grid.blocks[j].covers(x, y),
    ensures
        i == j,
{
    if i != j {
        assert(grid.blocks[i].spec_overlaps_with(grid.blocks[j]));
    }
}

/// Blocks that only touch along an edge do not overlap.
pub proof fn lemma_adjacent_blocks_do_not_overlap(a: Block, b: Block)
    requires
        a.position.0 + a.size.0 == b.position.0 || a.position.1 + a.size.1 == b.position.1,
    ensures
        !a.spec_overlaps_with(b),
{
}

/// For a block whose extent is not negative, as every block that
/// `Block::new` builds, a shift stays inside the grid exactly when the
/// shifted corner is not negative and the shifted far edges do not pass the
/// grid's.
pub proof fn lemma_shift_bounds(block: Block, direction: Direction, grid: (i32, i32))
    requires
        block.size.0 >= 0,
        block.size.1 >= 0,
    ensures
        block.can_shift_within(direction, grid) <==> {
            let delta = direction.spec_delta();
            &&& block.position.0 + delta.0 >= 0
            &&& block.position.1 + delta.1 >= 0
            &&& block.position.0 + delta.0 + block.size.0 <= grid.0
            &&& block.position.1 + delta.1 + block.size.1 <= grid.1
        },
{
}

/// A legal move keeps every block well formed: the moved block keeps its
/// extent and its corner stays at non-negative coordinates.
pub proof fn lemma_move_keeps_blocks_well_formed(grid: Grid, index: int, direction: Direction)
    requires
        forall|i: int| 0 <= i < grid.blocks.len() ==> (#[trigger] grid.blocks[i]).well_formed(),
        grid.move_result(index, direction).is_ok(),
    ensures
        forall|i: int|
            0 <= i < grid.blocks.len() ==> (#[trigger] grid.move_result(
                index,
                direction,
            ).unwrap().blocks[i]).well_formed(),
{
    let next = grid.move_result(index, direction).unwrap();
    assert forall|i: int| 0 <= i < grid.blocks.len() implies (
    #[trigger] next.blocks[i]).well_formed() by {
        if i != index {
            assert(next.blocks[i] == grid.blocks[i]);
        } else {
            assert(grid.blocks[index].well_formed());
        }
    }
}

/// A legal move changes one block's position by one unit vector and
/// nothing else.
pub proof fn lemma_move_is_single_step(grid: Grid, index: int, direction: Direction)
    requires
        grid.move_result(index, direction).is_ok(),
    ensures
        grid.steps_to(grid.move_result(index, direction).unwrap(), index, direction),
        grid.move_result(index, direction).unwrap() != grid,
{
    let next = grid.move_result(index, direction).unwrap();
    assert(next.blocks[index] == grid.blocks[index].shifted(direction));
    assert(next.blocks[index].position != grid.blocks[index].position);
}

/// Every grid among the moves enumerated from `(index, direction)` on is
/// the result of a legal move.
pub proof fn lemma_moves_from_are_moves(grid: Grid, index: int, direction: Direction)
    ensures
        forall|i: int|
            0 <= i < grid.moves_from(index, direction).len() ==> grid.reaches(
                #[trigger] grid.moves_from(index, direction)[i],
            ),
    decreases grid.blocks.len() - index, direction.steps_left(),
{
    if 0 <= index < grid.blocks.len() {
        let rest = if direction == Direction::Left {
            grid.moves_from(index + 1, Direction::Up)
        } else {
            grid.moves_from(index, direction.successor())
        };
        if direction == Direction::Left {
            lemma_moves_from_are_moves(grid, index + 1, Direction::Up);
        } else {
            lemma_moves_from_are_moves(grid, index, direction.successor());
        }
        let all = grid.moves_from(index, direction);
        assert forall|i: int| 0 <= i < all.len() implies grid.reaches(#[trigger] all[i]) by {
            match grid.move_result(index, direction) {
                Ok(next) => {
                    if i == 0 {
                        assert(all[0] == next);
                        assert(grid.move_result(index, direction) == Ok::<Grid, BoardError>(next));
                    } else {
                        assert(all[i] == rest[i - 1]);
                    }
                },
                Err(_) => {
                    assert(all[i] == rest[i]);
                },
            }
        }
    }
}

/// Every legal move at or after `(index, direction)` in enumeration order
/// is among the moves enumerated from there on.
pub proof fn lemma_moves_from_has_every_move(
    grid: Grid,
    index: int,
    direction: Direction,
    moved: int,
    towards: Direction,
)
    requires
        0 <= index,
        grid.move_result(moved, towards).is_ok(),
        moved > index || (moved == index && towards.steps_left() <= direction.steps_left()),
    ensures
        grid.moves_from(index, direction).contains(grid.move_result(moved, towards).unwrap()),
    decreases grid.blocks.len() - index, direction.steps_left(),
{
    let target = grid.move_result(moved, towards).unwrap();
    let all = grid.moves_from(index, direction);
    let rest = if direction == Direction::Left {
        grid.moves_from(index + 1, Direction::Up)
    } else {
        grid.moves_from(index, direction.successor())
    };
    if moved == index && towards == direction {
        assert(all[0] == target);
    } else {
        if direction == Direction::Left {
            lemma_moves_from_has_every_move(grid, index + 1, Direction::Up, moved, towards);
        } else {
            lemma_moves_from_has_every_move(grid, index, direction.successor(), moved, towards);
        }
        let at = choose|i: int| 0 <= i < rest.len() && rest[i] == target;
        match grid.move_result(index, direction) {
            Ok(_) => {
                assert(all[at + 1] == target);
            },
            Err(_) => {
                assert(all[at] == target);
            },
        }
    }
}

/// At most `4 * (n - index)` moves are enumerated from block `index` on,
/// and fewer by one for each direction already passed.
pub proof fn lemma_moves_from_bounded(grid: Grid, index: int, direction: Direction)
    requires
        0 <= index < grid.blocks.len(),
    ensures
        grid.moves_from(index, direction).len() <= 4 * (grid.blocks.len() - index - 1)
            + direction.steps_left() + 1,
    decreases grid.blocks.len() - index, direction.steps_left(),
{
    let rest = if direction == Direction::Left {
        grid.moves_from(index + 1, Direction::Up)
    } else {
        grid.moves_from(index, direction.successor())
    };
    if direction == Direction::Left {
        if index + 1 < grid.blocks.len() {
            lemma_moves_from_bounded(grid, index + 1, Direction::Up);
        } else {
            assert(rest.len() == 0);
        }
    } else {
        lemma_moves_from_bounded(grid, index, direction.successor());
    }
    assert(grid.moves_from(index, direction).len() <= rest.len() + 1);
}

/// The neighbours of a grid are exactly the results of its legal moves.
pub proof fn lemma_neighbors_are_the_moves(grid: Grid, next: Grid)
    ensures
        grid.neighbors().contains(next) <==> grid.reaches(next),
{
    if grid.neighbors().contains(next) {
        lemma_moves_from_are_moves(grid, 0, Direction::Up);
    }
    if grid.reaches(next) {
        let (index, direction) = choose|index: int, direction: Direction| #[trigger]
            grid.move_result(index, direction) == Ok::<Grid, BoardError>(next);
        lemma_moves_from_has_every_move(grid, 0, Direction::Up, index, direction);
    }
}

/// Every neighbour of a valid grid is valid: its blocks lie inside the grid
/// and no two of them overlap.
pub proof fn lemma_neighbors_are_valid(grid: Grid)
    requires
        grid.valid(),
    ensures
        forall|i: int| 0 <= i < grid.neighbors().len() ==> (#[trigger] grid.neighbors()[i]).valid(),
{
    lemma_moves_from_are_moves(grid, 0, Direction::Up);
    assert forall|i: int| 0 <= i < grid.neighbors().len() implies (
    #[trigger] grid.neighbors()[i]).valid() by {
        let next = grid.neighbors()[i];
        assert(grid.reaches(next));
        let (index, direction) = choose|index: int, direction: Direction| #[trigger]
            grid.move_result(index, direction) == Ok::<Grid, BoardError>(next);
        lemma_move_keeps_validity(grid, index, direction);
    }
}

/// Every neighbour differs from the grid in the position of exactly one
/// block, and that position differs by one of the four unit vectors.
pub proof fn lemma_neighbors_are_single_steps(grid: Grid)
    ensures
        forall|i: int|
            0 <= i < grid.neighbors().len() ==> grid.single_step(#[trigger] grid.neighbors()[i]),
        forall|i: int| 0 <= i < grid.neighbors().len() ==> #[trigger] grid.neighbors()[i] != grid,
{
    lemma_moves_from_are_moves(grid, 0, Direction::Up);
    assert forall|i: int| 0 <= i < grid.neighbors().len() implies grid.single_step(
        #[trigger] grid.neighbors()[i],
    ) && grid.neighbors()[i] != grid by {
        let next = grid.neighbors()[i];
        assert(grid.reaches(next));
        let (index, direction) = choose|index: int, direction: Direction| #[trigger]
            grid.move_result(index, direction) == Ok::<Grid, BoardError>(next);
        lemma_move_is_single_step(grid, index, direction);
        assert(grid.steps_to(next, index, direction));
    }
}

/// A grid has at most four neighbours for each of its blocks.
pub proof fn lemma_neighbors_bounded(grid: Grid)
    ensures
        grid.neighbors().len() <= 4 * grid.blocks.len(),
{
    if grid.blocks.len() > 0 {
        lemma_moves_from_bounded(grid, 0, Direction::Up);
    }
}

/// Two enumerations started from boards with the same content hand out the
/// same neighbours in the same order.
pub proof fn lemma_neighbors_restartable(a: Board, b: Board, first: Neighbors, second: Neighbors)
    requires
        a@ == b@,
        first.origin() == a@,
        first.remaining() == a@.neighbors(),
        second.origin() == b@,
        second.remaining() == b@.neighbors(),
    ensures
        first.remaining() == second.remaining(),
{
}

/// The distances from blocks to their own positions add up to zero.
pub proof fn lemma_distance_sum_to_self(blocks: Seq<Block>, count: nat)
    requires
        count <= blocks.len(),
    ensures
        distance_sum(blocks, blocks, count) == 0,
    decreases count,
{
    if count > 0 {
        lemma_distance_sum_to_self(blocks, (count - 1) as nat);
    }
}

/// A grid that satisfies a goal has estimate zero.
pub proof fn lemma_goal_has_zero_estimate(goal: Goal, grid: Grid)
    requires
        goal.spec_is_goal(grid),
    ensures
        goal.spec_estimate(grid) == 0,
{
    match goal {
        Goal::SingleTarget { index, position } => {},
        Goal::FullMatch { target } => {
            lemma_distance_sum_to_self(grid.blocks, grid.blocks.len());
        },
    }
}

/// A shift by one cell changes a block's distance from any point by at most one.
pub proof fn lemma_shift_changes_distance_by_at_most_one(
    block: Block,
    direction: Direction,
    grid: (i32, i32),
    target: (i32, i32),
)
    requires
        block.can_shift_within(direction, grid),
    ensures
        block.shifted(direction).spec_distance_from(target) <= block.spec_distance_from(target)
            + 1,
        block.spec_distance_from(target) <= block.shifted(direction).spec_distance_from(target)
            + 1,
{
}

/// Replacing one block changes a sum of distances by the change of that
/// block's distance, and not at all if the block is not among those summed.
pub proof fn lemma_distance_sum_after_update(
    blocks: Seq<Block>,
    targets: Seq<Block>,
    count: nat,
    index: int,
    moved: Block,
)
    requires
        0 <= index < blocks.len(),
        count <= blocks.len(),
        count <= targets.len(),
    ensures
        index >= count ==> distance_sum(blocks.update(index, moved), targets, count)
            == distance_sum(blocks, targets, count),
        index < count ==> distance_sum(blocks.update(index, moved), targets, count)
            + blocks[index].spec_distance_from(targets[index].position) == distance_sum(
            blocks,
            targets,
            count,
        ) + moved.spec_distance_from(targets[index].position),
    decreases count,
{
    if count > 0 {
        lemma_distance_sum_after_update(blocks, targets, (count - 1) as nat, index, moved);
    }
}

/// One legal move changes a goal's estimate by at most one.
pub proof fn lemma_move_changes_estimate_by_at_most_one(
    goal: Goal,
    grid: Grid,
    index: int,
    direction: Direction,
)
    requires
        grid.move_result(index, direction).is_ok(),
    ensures
        goal.spec_estimate(grid.move_result(index, direction).unwrap()) <= goal.spec_estimate(grid)
            + 1,
        goal.spec_estimate(grid) <= goal.spec_estimate(
            grid.move_result(index, direction).unwrap(),
        ) + 1,
{
    let block = grid.blocks[index];
    let moved = block.shifted(direction);
    let next = grid.move_result(index, direction).unwrap();
    assert(next.blocks == grid.blocks.update(index, moved));
    match goal {
        Goal::SingleTarget { index: aimed, position } => {
            lemma_shift_changes_distance_by_at_most_one(block, direction, grid.size, position);
        },
        Goal::FullMatch { target } => {
            let count: nat = if grid.blocks.len() <= target@.blocks.len() {
                grid.blocks.len()
            } else {
                target@.blocks.len()
            };
            lemma_distance_sum_after_update(grid.blocks, target@.blocks, count, index, moved);
            if index < count {
                lemma_shift_changes_distance_by_at_most_one(
                    block,
                    direction,
                    grid.size,
                    target@.blocks[index].position,
                );
            }
        },
    }
}

/// From the board at `from` on, a solution takes at least as many moves as
/// the goal's estimate of that board.
pub proof fn lemma_estimate_bounds_rest_of_solution(
    start: Grid,
    goal: Goal,
    path: Seq<Board>,
    from: int,
)
    requires
        solves(start, goal, path),
        0 <= from < path.len(),
    ensures
        goal.spec_estimate(path[from]@) <= path.len() - 1 - from,
    decreases path.len() - from,
{
    if from == path.len() - 1 {
        lemma_goal_has_zero_estimate(goal, path[from]@);
    } else {
        lemma_estimate_bounds_rest_of_solution(start, goal, path, from + 1);
        let here = path[from]@;
        let next = path[from + 1]@;
        assert(here.neighbors().contains(next));
        lemma_neighbors_are_the_moves(here, next);
        let (index, direction) = choose|index: int, direction: Direction| #[trigger]
            here.move_result(index, direction) == Ok::<Grid, BoardError>(next);
        lemma_move_changes_estimate_by_at_most_one(goal, here, index, direction);
    }
}

/// No solution has fewer moves than the goal's estimate of its first board.
pub proof fn lemma_estimate_never_exceeds_a_solution(start: Grid, goal: Goal, path: Seq<Board>)
    requires
        solves(start, goal, path),
    ensures
        goal.spec_estimate(start) <= path.len() - 1,
{
    lemma_estimate_bounds_rest_of_solution(start, goal, path, 0);
}

/// Every board of a solution that starts from a valid board is valid, and
/// each board after the first differs from the one before it by one step
/// of one block.
pub proof fn lemma_solution_is_made_of_valid_single_steps(
    start: Grid,
    goal: Goal,
    path: Seq<Board>,
    at: int,
)
    requires
        solves(start, goal, path),
        0 <= at < path.len(),
    ensures
        start.valid() ==> path[at]@.valid(),
        at > 0 ==> path[at - 1]@.single_step(path[at]@),
    decreases at,
{
    if at > 0 {
        lemma_solution_is_made_of_valid_single_steps(start, goal, path, at - 1);
        let before = path[at - 1]@;
        let here = path[at]@;
        assert(before.neighbors().contains(here));
        let i = choose|i: int| 0 <= i < before.neighbors().len() && before.neighbors()[i] == here;
        lemma_neighbors_are_single_steps(before);
        if start.valid() {
            lemma_neighbors_are_valid(before);
        }
    }
}

} // verus!

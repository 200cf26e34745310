//! What a search aims at: a place for one block, or a whole target board,
//! each with its estimate of the moves still to make.

use vstd::prelude::*;
use crate::graph::{Block, Board};
use crate::grid::Grid;

verus! {

/// The sum of the taxicab distances from the first `count` blocks of
/// `blocks` to the positions of the blocks of `targets` at the same indices.
pub open spec fn distance_sum(blocks: Seq<Block>, targets: Seq<Block>, count: nat) -> nat
    decreases count,
{
    if count == 0 {
        0
    } else {
        distance_sum(blocks, targets, (count - 1) as nat) + blocks[count
            - 1].spec_distance_from(targets[count - 1].position)
    }
}

/// The win condition of a puzzle.
#[derive(Debug)]
pub enum Goal {
    /// The block at `index` has its corner at `position`.
    SingleTarget { index: usize, position: (i32, i32) },
    /// The board equals `target`: the same extent and the same blocks at
    /// the same indices.
    FullMatch { target: Board },
}

impl Goal {
    /// Whether `grid` satisfies the goal.
    pub open spec fn spec_is_goal(self, grid: Grid) -> bool {
        match self {
            Goal::SingleTarget { index, position } => index < grid.blocks.len()
                && grid.blocks[index as int].position == position,
            Goal::FullMatch { target } => grid == target@,
        }
    }

    /// The estimate of the moves from `grid` to the goal: the sum, over the
    /// blocks of `grid` that the goal gives a place to, of the taxicab
    /// distance from the block to its place. A single-target goal places the
    /// block at its index, if `grid` has one; a full match places each block
    /// for which the target has a block at the same index.
    pub open spec fn spec_estimate(self, grid: Grid) -> nat {
        match self {
            Goal::SingleTarget { index, position } => if index < grid.blocks.len() {
                grid.blocks[index as int].spec_distance_from(position)
            } else {
                0
            },
            Goal::FullMatch { target } => distance_sum(
                grid.blocks,
                target@.blocks,
                if grid.blocks.len() <= target@.blocks.len() {
                    grid.blocks.len()
                } else {
                    target@.blocks.len()
                },
            ),
        }
    }

    /// Whether `board` satisfies the goal.
    pub fn is_goal(&self, board: &Board) -> (r: bool)
        ensures
            r == self.spec_is_goal(board@),
    {
        match self {
            Goal::SingleTarget { index, position } => {
                if *index < board.blocks.len() {
                    let block = board.blocks[*index];
                    block.position.0 == position.0 && block.position.1 == position.1
                } else {
                    false
                }
            },
            Goal::FullMatch { target } => board.same_as(target),
        }
    }

    /// The estimate of the moves from `board` to the goal. It is zero on a
    /// board that satisfies the goal, and one move changes it by one at
    /// most, so no solution takes fewer moves than it says. It counts no
    /// move that makes room for another: a solution may take many more.
    pub fn estimate(&self, board: &Board) -> (r: u128)
        ensures
            r == self.spec_estimate(board@),
    {
        match self {
            Goal::SingleTarget { index, position } => {
                if *index < board.blocks.len() {
                    let d: u64 = board.blocks[*index].distance_from(*position);
                    d as u128
                } else {
                    0
                }
            },
            Goal::FullMatch { target } => {
                let n = if board.blocks.len() <= target.blocks.len() {
                    board.blocks.len()
                } else {
                    target.blocks.len()
                };
                let mut total: u128 = 0;
                let mut i: usize = 0;
                while i < n
                    invariant
                        n <= board.blocks.len(),
                        n <= target.blocks.len(),
                        i <= n,
                        total == distance_sum(board@.blocks, target@.blocks, i as nat),
                        total <= i * 0x2_0000_0000,
                    decreases n - i,
                {
                    let d: u64 = board.blocks[i].distance_from(target.blocks[i].position);
                    assert(d == board@.blocks[i as int].spec_distance_from(
                        target@.blocks[i as int].position,
                    ));
                    assert(d <= 0x2_0000_0000);
                    total = total + d as u128;
                    i += 1;
                }
                total
            },
        }
    }
}

} // verus!

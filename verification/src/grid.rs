//! The mathematical content of a board, and what a move and the set of
//! neighbours are in terms of it.

use vstd::prelude::*;
use crate::graph::{Block, BoardError, Direction};

verus! {

/// A board as a plain value: the grid's extent and the blocks in index order.
pub struct Grid {
    pub size: (i32, i32),
    pub blocks: Seq<Block>,
}

impl Grid {
    /// Every block lies inside the grid.
    pub open spec fn in_bounds(self) -> bool {
        forall|i: int| 0 <= i < self.blocks.len() ==> (#[trigger] self.blocks[i]).within(self.size)
    }

    /// No two blocks at different indices overlap.
    pub open spec fn disjoint(self) -> bool {
        forall|i: int, j: int|
            0 <= i < self.blocks.len() && 0 <= j < self.blocks.len() && i != j ==> !(
            #[trigger] self.blocks[i]).spec_overlaps_with(#[trigger] self.blocks[j])
    }

    /// The invariant of every board of the state space.
    pub open spec fn valid(self) -> bool {
        self.in_bounds() && self.disjoint()
    }

    /// Whether `candidate` overlaps a block at an index other than `index`.
    pub open spec fn collides(self, index: int, candidate: Block) -> bool {
        exists|j: int|
            0 <= j < self.blocks.len() && j != index && candidate.spec_overlaps_with(
                #[trigger] self.blocks[j],
            )
    }

    /// Whether the block at `index` occupies the cell `(x, y)` and no block
    /// of higher index does.
    pub open spec fn topmost_at(self, index: int, x: int, y: int) -> bool {
        &&& 0 <= index < self.blocks.len()
        &&& self.blocks[index].covers(x, y)
        &&& forall|j: int|
            index < j < self.blocks.len() ==> !(#[trigger] self.blocks[j]).covers(x, y)
    }

    /// The grid with the block at `index` replaced by `block`.
    pub open spec fn with_block(self, index: int, block: Block) -> Grid {
        Grid { size: self.size, blocks: self.blocks.update(index, block) }
    }

    /// What moving the block at `index` one cell in `direction` gives: the
    /// new grid, or the first reason, in the order index, bounds, collision,
    /// for which there is none.
    pub open spec fn move_result(self, index: int, direction: Direction) -> Result<
        Grid,
        BoardError,
    > {
        if !(0 <= index < self.blocks.len()) {
            Err(BoardError::IndexOutOfRange)
        } else if !self.blocks[index].can_shift_within(direction, self.size) {
            Err(BoardError::OutOfBounds)
        } else if self.collides(index, self.blocks[index].shifted(direction)) {
            Err(BoardError::Collision)
        } else {
            Ok(self.with_block(index, self.blocks[index].shifted(direction)))
        }
    }

    /// The successful moves among the attempts from `(index, direction)` on,
    /// where the attempts run through the block indices in ascending order
    /// and, for each index, through the directions in cyclic order.
    pub open spec fn moves_from(self, index: int, direction: Direction) -> Seq<Grid>
        decreases self.blocks.len() - index, direction.steps_left(),
    {
        if index < 0 || index >= self.blocks.len() {
            Seq::empty()
        } else {
            let rest = if direction == Direction::Left {
                self.moves_from(index + 1, Direction::Up)
            } else {
                self.moves_from(index, direction.successor())
            };
            match self.move_result(index, direction) {
                Ok(next) => seq![next] + rest,
                Err(_) => rest,
            }
        }
    }

    /// Every grid that one legal move leads to, in enumeration order.
    pub open spec fn neighbors(self) -> Seq<Grid> {
        self.moves_from(0, Direction::Up)
    }

    /// Whether `next` is this grid after the block at `index` has taken one
    /// step in `direction`: that block has the same extent and its corner
    /// lies one unit vector further; every other block and the grid's extent
    /// are the same.
    pub open spec fn steps_to(self, next: Grid, index: int, direction: Direction) -> bool {
        &&& 0 <= index < self.blocks.len()
        &&& next.size == self.size
        &&& next.blocks.len() == self.blocks.len()
        &&& forall|k: int|
            0 <= k < self.blocks.len() && k != index ==> #[trigger] next.blocks[k]
                == self.blocks[k]
        &&& next.blocks[index].size == self.blocks[index].size
        &&& next.blocks[index].position.0 == self.blocks[index].position.0
            + direction.spec_delta().0
        &&& next.blocks[index].position.1 == self.blocks[index].position.1
            + direction.spec_delta().1
    }

    /// Whether `next` differs from this grid by one step of one block.
    pub open spec fn single_step(self, next: Grid) -> bool {
        exists|index: int, direction: Direction| #[trigger]
            self.steps_to(next, index, direction)
    }

    /// Whether some legal move of this grid gives `next`.
    pub open spec fn reaches(self, next: Grid) -> bool {
        exists|index: int, direction: Direction| #[trigger]
            self.move_result(index, direction) == Ok::<Grid, BoardError>(next)
    }
}

} // verus!

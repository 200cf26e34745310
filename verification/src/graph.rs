//! Blocks, directions and boards: the nodes of the puzzle graph and the
//! single-step moves that connect them.

use vstd::prelude::*;
use crate::grid::Grid;

verus! {

/// Why a block could not be built or a move could not be made.
#[derive(Copy, Clone, Debug, PartialEq, Eq, Structural)]
pub enum BoardError {
    /// A coordinate or extent does not fit the coordinate range.
    InvalidBlock,
    /// The board has no block at the given index.
    IndexOutOfRange,
    /// The moved block would leave the grid.
    OutOfBounds,
    /// The moved block would share a cell with another block.
    Collision,
}

/// The largest coordinate or extent a block or a grid can have.
pub const MAX_COORDINATE: u32 = 0x7fff_ffff;

/// A rectangle on the grid: the cell of its top-left corner and its extent.
/// It occupies the half-open ranges `[x, x + w)` and `[y, y + h)`.
#[derive(Copy, Clone, Debug, Hash, PartialEq, Eq)]
pub struct Block {
    pub position: (i32, i32),
    pub size: (i32, i32),
}

impl Block {
    /// The invariant of a block of the puzzle: a corner at non-negative
    /// coordinates and an extent of at least one cell along each axis.
    pub open spec fn well_formed(self) -> bool {
        &&& self.position.0 >= 0
        &&& self.position.1 >= 0
        &&& self.size.0 >= 1
        &&& self.size.1 >= 1
    }

    /// Whether `new` accepts these coordinates and extents.
    pub open spec fn representable(position: (u32, u32), size: (u32, u32)) -> bool {
        &&& position.0 <= MAX_COORDINATE
        &&& position.1 <= MAX_COORDINATE
        &&& size.0 <= MAX_COORDINATE
        &&& size.1 <= MAX_COORDINATE
    }

    /// The taxicab distance between the block's corner and `target`.
    pub open spec fn spec_distance_from(self, target: (i32, i32)) -> nat {
        vstd::math::abs(target.0 - self.position.0) + vstd::math::abs(target.1 - self.position.1)
    }

    /// Whether the ranges of the two rectangles meet on both axes. Between
    /// rectangles of positive extent this says that they share a cell.
    pub open spec fn spec_overlaps_with(self, other: Block) -> bool {
        &&& self.position.0 < other.position.0 + other.size.0
        &&& other.position.0 < self.position.0 + self.size.0
        &&& self.position.1 < other.position.1 + other.size.1
        &&& other.position.1 < self.position.1 + self.size.1
    }

    /// Whether the block occupies the cell `(x, y)`.
    pub open spec fn covers(self, x: int, y: int) -> bool {
        &&& self.position.0 <= x < self.position.0 + self.size.0
        &&& self.position.1 <= y < self.position.1 + self.size.1
    }

    /// Whether the block lies inside a grid of the given extent.
    pub open spec fn within(self, grid: (i32, i32)) -> bool {
        &&& self.position.0 >= 0
        &&& self.position.1 >= 0
        &&& self.position.0 + self.size.0 <= grid.0
        &&& self.position.1 + self.size.1 <= grid.1
    }

    /// Whether the block, pushed one cell in `direction`, still lies inside
    /// the grid: its corner stays a non-negative coordinate and its far
    /// edges do not pass the grid's.
    pub open spec fn can_shift_within(self, direction: Direction, grid: (i32, i32)) -> bool {
        let delta = direction.spec_delta();
        &&& 0 <= self.position.0 + delta.0 <= MAX_COORDINATE
        &&& 0 <= self.position.1 + delta.1 <= MAX_COORDINATE
        &&& self.position.0 + delta.0 + self.size.0 <= grid.0
        &&& self.position.1 + delta.1 + self.size.1 <= grid.1
    }

    /// The block pushed one cell in `direction`; its extent is unchanged.
    pub open spec fn shifted(self, direction: Direction) -> Block {
        let delta = direction.spec_delta();
        Block {
            position: ((self.position.0 + delta.0) as i32, (self.position.1 + delta.1) as i32),
            size: self.size,
        }
    }

    /// Builds a block from unsigned coordinates and extents, and keeps them
    /// as they are. Fails when one of them exceeds `MAX_COORDINATE`, and on
    /// no other ground: an extent of zero is kept too, and gives a block
    /// that occupies no cell and is not well formed.
    pub fn new(position: (u32, u32), size: (u32, u32)) -> (r: Result<Block, BoardError>)
        ensures
            Block::representable(position, size) ==> r.is_ok(),
            !Block::representable(position, size) ==> r == Err::<Block, BoardError>(
                BoardError::InvalidBlock,
            ),
            r.is_ok() ==> {
                let b = r.unwrap();
                &&& b.position.0 == position.0
                &&& b.position.1 == position.1
                &&& b.size.0 == size.0
                &&& b.size.1 == size.1
            },
            r.is_ok() ==> r.unwrap().well_formed() == (size.0 >= 1 && size.1 >= 1),
    {
        if position.0 > MAX_COORDINATE || position.1 > MAX_COORDINATE {
            return Err(BoardError::InvalidBlock);
        }
        if size.0 > MAX_COORDINATE || size.1 > MAX_COORDINATE {
            return Err(BoardError::InvalidBlock);
        }
        Ok(
            Block {
                position: (position.0 as i32, position.1 as i32),
                size: (size.0 as i32, size.1 as i32),
            },
        )
    }

    /// The taxicab distance from the block's corner to `target`.
    pub fn distance_from(&self, target: (i32, i32)) -> (r: u64)
        ensures
            r == self.spec_distance_from(target),
    {
        let dx: i64 = target.0 as i64 - self.position.0 as i64;
        let dy: i64 = target.1 as i64 - self.position.1 as i64;
        let x_size: u64 = if dx < 0 { (-dx) as u64 } else { dx as u64 };
        let y_size: u64 = if dy < 0 { (-dy) as u64 } else { dy as u64 };
        x_size + y_size
    }

    /// Whether the two blocks share a cell. Blocks that only touch along an
    /// edge do not overlap.
    pub fn overlaps_with(&self, other: &Block) -> (r: bool)
        ensures
            r == self.spec_overlaps_with(*other),
    {
        (self.position.0 as i64) < other.position.0 as i64 + other.size.0 as i64
            && (other.position.0 as i64) < self.position.0 as i64 + self.size.0 as i64
            && (self.position.1 as i64) < other.position.1 as i64 + other.size.1 as i64
            && (other.position.1 as i64) < self.position.1 as i64 + self.size.1 as i64
    }
}

/// One of the four unit moves, in the cyclic order up, right, down, left.
#[derive(Copy, Clone, Debug, PartialEq, Eq, Structural)]
pub enum Direction {
    Up,
    Right,
    Down,
    Left,
}

impl Direction {
    /// The direction that follows `self` in the cycle.
    pub open spec fn successor(self) -> Direction {
        match self {
            Direction::Up => Direction::Right,
            Direction::Right => Direction::Down,
            Direction::Down => Direction::Left,
            Direction::Left => Direction::Up,
        }
    }

    /// The displacement of one step in this direction; `y` grows downwards.
    pub open spec fn spec_delta(self) -> (int, int) {
        match self {
            Direction::Up => (0, -1),
            Direction::Right => (1, 0),
            Direction::Down => (0, 1),
            Direction::Left => (-1, 0),
        }
    }

    /// The number of steps the cycle still takes from `self` to its last direction.
    pub open spec fn steps_left(self) -> nat {
        match self {
            Direction::Up => 3,
            Direction::Right => 2,
            Direction::Down => 1,
            Direction::Left => 0,
        }
    }

    /// The first direction of the cycle.
    pub fn new() -> (r: Direction)
        ensures
            r == Direction::Up,
    {
        Direction::Up
    }

    /// Advances to the next direction of the cycle and tells whether the
    /// cycle has come back to its first direction.
    pub fn next(&mut self) -> (wrapped: bool)
        ensures
            *final(self) == old(self).successor(),
            wrapped == (*final(self) == Direction::Up),
    {
        let following = match *self {
            Direction::Up => Direction::Right,
            Direction::Right => Direction::Down,
            Direction::Down => Direction::Left,
            Direction::Left => Direction::Up,
        };
        *self = following;
        match following {
            Direction::Up => true,
            _ => false,
        }
    }

    /// The displacement `(dx, dy)` of one step in this direction.
    pub fn delta(&self) -> (r: (i32, i32))
        ensures
            r.0 == self.spec_delta().0,
            r.1 == self.spec_delta().1,
    {
        match self {
            Direction::Up => (0, -1),
            Direction::Right => (1, 0),
            Direction::Down => (0, 1),
            Direction::Left => (-1, 0),
        }
    }
}

impl Default for Direction {
    fn default() -> (r: Direction)
        ensures
            r == Direction::Up,
    {
        Direction::new()
    }
}

/// A board state, a node of the puzzle graph: the grid's extent and the
/// blocks, each named by its index.
#[derive(Debug, Hash, PartialEq, Eq, Default)]
pub struct Board {
    pub size: (i32, i32),
    pub blocks: Vec<Block>,
}

impl View for Board {
    type V = Grid;

    open spec fn view(&self) -> Grid {
        Grid { size: self.size, blocks: self.blocks@ }
    }
}

impl Clone for Board {
    /// A board of its own with the same extent and the same blocks.
    fn clone(&self) -> (r: Board)
        ensures
            r@ == self@,
    {
        let n = self.blocks.len();
        let mut blocks: Vec<Block> = Vec::with_capacity(n);
        let mut i: usize = 0;
        while i < n
            invariant
                n == self.blocks.len(),
                i <= n,
                blocks@ == self.blocks@.subrange(0, i as int),
            decreases n - i,
        {
            blocks.push(self.blocks[i]);
            assert(blocks@ =~= self.blocks@.subrange(0, i + 1));
            i += 1;
        }
        assert(blocks@ =~= self.blocks@);
        Board { size: self.size, blocks }
    }
}

impl Board {
    /// Builds a board from the grid's unsigned extent and its blocks. Fails
    /// when an extent exceeds `MAX_COORDINATE`. The blocks are taken as they
    /// are: `is_valid` tells whether they fit the grid and each other.
    pub fn new(size: (u32, u32), blocks: Vec<Block>) -> (r: Result<Board, BoardError>)
        ensures
            size.0 <= MAX_COORDINATE && size.1 <= MAX_COORDINATE ==> r.is_ok(),
            size.0 > MAX_COORDINATE || size.1 > MAX_COORDINATE ==> r == Err::<Board, BoardError>(
                BoardError::InvalidBlock,
            ),
            r.is_ok() ==> {
                let b = r.unwrap();
                &&& b.size.0 == size.0
                &&& b.size.1 == size.1
                &&& b.blocks == blocks
            },
    {
        if size.0 > MAX_COORDINATE || size.1 > MAX_COORDINATE {
            return Err(BoardError::InvalidBlock);
        }
        Ok(Board { size: (size.0 as i32, size.1 as i32), blocks })
    }

    /// Whether every block lies inside the grid and no two blocks overlap.
    pub fn is_valid(&self) -> (r: bool)
        ensures
            r == self@.valid(),
    {
        let n = self.blocks.len();
        let mut i: usize = 0;
        while i < n
            invariant
                n == self.blocks.len(),
                i <= n,
                forall|k: int| 0 <= k < i ==> (#[trigger] self.blocks@[k]).within(self.size),
                forall|k: int, l: int|
                    0 <= k < i && 0 <= l < n && k != l ==> !(
                    #[trigger] self.blocks@[k]).spec_overlaps_with(#[trigger] self.blocks@[l]),
            decreases n - i,
        {
            let block = self.blocks[i];
            if block.position.0 < 0 || block.position.1 < 0 || block.position.0 as i64
                + block.size.0 as i64 > self.size.0 as i64 || block.position.1 as i64
                + block.size.1 as i64 > self.size.1 as i64 {
                assert(!self@.blocks[i as int].within(self@.size));
                return false;
            }
            let mut j: usize = 0;
            while j < n
                invariant
                    n == self.blocks.len(),
                    i < n,
                    j <= n,
                    block == self.blocks@[i as int],
                    forall|l: int|
                        0 <= l < j && l != i ==> !block.spec_overlaps_with(
                            #[trigger] self.blocks@[l],
                        ),
                decreases n - j,
            {
                if j != i && block.overlaps_with(&self.blocks[j]) {
                    assert(self@.blocks[i as int].spec_overlaps_with(self@.blocks[j as int]));
                    return false;
                }
                j += 1;
            }
            i += 1;
        }
        true
    }

    /// The block that occupies `cell`: the one of highest index where
    /// several do, which on a valid board none do.
    pub fn block_at(&self, cell: (i32, i32)) -> (r: Option<usize>)
        ensures
            match r {
                Some(index) => self@.topmost_at(index as int, cell.0 as int, cell.1 as int),
                None => forall|j: int|
                    0 <= j < self@.blocks.len() ==> !(#[trigger] self@.blocks[j]).covers(
                        cell.0 as int,
                        cell.1 as int,
                    ),
            },
    {
        let mut i: usize = self.blocks.len();
        while i > 0
            invariant
                i <= self.blocks.len(),
                forall|j: int|
                    i <= j < self@.blocks.len() ==> !(#[trigger] self@.blocks[j]).covers(
                        cell.0 as int,
                        cell.1 as int,
                    ),
            decreases i,
        {
            i -= 1;
            let block = self.blocks[i];
            assert(block == self@.blocks[i as int]);
            if block.position.0 <= cell.0 && (cell.0 as i64) < block.position.0 as i64
                + block.size.0 as i64 && block.position.1 <= cell.1 && (cell.1 as i64)
                < block.position.1 as i64 + block.size.1 as i64 {
                return Some(i);
            }
        }
        None
    }

    /// Whether the two boards have the same extent and the same blocks at
    /// the same indices.
    pub fn same_as(&self, other: &Board) -> (r: bool)
        ensures
            r == (self@ == other@),
    {
        if self.size.0 != other.size.0 || self.size.1 != other.size.1 {
            return false;
        }
        let n = self.blocks.len();
        if other.blocks.len() != n {
            return false;
        }
        let mut i: usize = 0;
        while i < n
            invariant
                n == self.blocks.len(),
                n == other.blocks.len(),
                i <= n,
                forall|k: int| 0 <= k < i ==> self.blocks@[k] == other.blocks@[k],
            decreases n - i,
        {
            let a = self.blocks[i];
            let b = other.blocks[i];
            if a.position.0 != b.position.0 || a.position.1 != b.position.1 || a.size.0 != b.size.0
                || a.size.1 != b.size.1 {
                assert(self.blocks@[i as int] != other.blocks@[i as int]);
                return false;
            }
            i += 1;
        }
        assert(self.blocks@ =~= other.blocks@);
        true
    }

    /// Starts the enumeration of the boards that one legal move leads to.
    pub fn neighbors(&self) -> (r: Neighbors)
        ensures
            r.origin() == self@,
            r.remaining() == self@.neighbors(),
    {
        Neighbors { board: self.clone(), block: 0, direction: Direction::new() }
    }

    /// Tries to move the block at `block_index` one cell in `direction`.
    /// Gives the board after the move, which differs from `self` in that
    /// block's position alone, or the reason why the move cannot be made.
    pub fn try_move(&self, block_index: usize, direction: &Direction) -> (r: Result<
        Board,
        BoardError,
    >)
        ensures
            match r {
                Ok(board) => self@.move_result(block_index as int, *direction) == Ok::<
                    Grid,
                    BoardError,
                >(board@),
                Err(e) => self@.move_result(block_index as int, *direction) == Err::<
                    Grid,
                    BoardError,
                >(e),
            },
            r.is_ok() ==> self@.steps_to(r.unwrap()@, block_index as int, *direction),
            r.is_ok() && self@.valid() ==> r.unwrap()@.valid(),
    {
        let n = self.blocks.len();
        if block_index >= n {
            return Err(BoardError::IndexOutOfRange);
        }
        let block = self.blocks[block_index];
        let delta = direction.delta();

        let new_x: i64 = block.position.0 as i64 + delta.0 as i64;
        if new_x < 0 || new_x > 0x7fff_ffff || new_x + block.size.0 as i64 > self.size.0 as i64 {
            return Err(BoardError::OutOfBounds);
        }
        let new_y: i64 = block.position.1 as i64 + delta.1 as i64;
        if new_y < 0 || new_y > 0x7fff_ffff || new_y + block.size.1 as i64 > self.size.1 as i64 {
            return Err(BoardError::OutOfBounds);
        }
        let moved_block = Block { position: (new_x as i32, new_y as i32), size: block.size };
        assert(block == self@.blocks[block_index as int]);
        assert(block.can_shift_within(*direction, self@.size));
        assert(moved_block == block.shifted(*direction));

        let mut j: usize = 0;
        while j < n
            invariant
                n == self.blocks.len(),
                block_index < n,
                j <= n,
                self@.blocks[block_index as int].can_shift_within(*direction, self@.size),
                moved_block == self@.blocks[block_index as int].shifted(*direction),
                forall|k: int|
                    0 <= k < j && k != block_index ==> !moved_block.spec_overlaps_with(
                        #[trigger] self@.blocks[k],
                    ),
            decreases n - j,
        {
            if j != block_index && moved_block.overlaps_with(&self.blocks[j]) {
                assert(self@.collides(block_index as int, moved_block));
                return Err(BoardError::Collision);
            }
            j += 1;
        }
        assert(!self@.collides(block_index as int, moved_block));

        let mut blocks: Vec<Block> = Vec::with_capacity(n);
        let mut i: usize = 0;
        while i < n
            invariant
                n == self.blocks.len(),
                block_index < n,
                i <= n,
                blocks@ == self.blocks@.update(block_index as int, moved_block).subrange(
                    0,
                    i as int,
                ),
            decreases n - i,
        {
            if i == block_index {
                blocks.push(moved_block);
            } else {
                blocks.push(self.blocks[i]);
            }
            assert(blocks@ =~= self.blocks@.update(block_index as int, moved_block).subrange(
                0,
                i + 1,
            ));
            i += 1;
        }
        assert(blocks@ =~= self.blocks@.update(block_index as int, moved_block));
        let board = Board { size: self.size, blocks };
        proof {
            assert(board@ == self@.with_block(block_index as int, moved_block));
            crate::laws::lemma_move_is_single_step(self@, block_index as int, *direction);
            if self@.valid() {
                crate::laws::lemma_move_keeps_validity(self@, block_index as int, *direction);
            }
        }
        Ok(board)
    }
}

/// The enumeration of a board's neighbours: a snapshot of the board and the
/// next attempt to make, a block index and a direction.
pub struct Neighbors {
    board: Board,
    block: usize,
    direction: Direction,
}

impl Neighbors {
    /// The board whose neighbours are enumerated.
    pub closed spec fn origin(&self) -> Grid {
        self.board@
    }

    /// The neighbours that `next` has not handed out yet, in order.
    pub closed spec fn remaining(&self) -> Seq<Grid> {
        self.board@.moves_from(self.block as int, self.direction)
    }

    /// Hands out the next neighbour, or `None` when there is none left.
    /// Attempts that fail are passed over.
    pub fn next(&mut self) -> (r: Option<Board>)
        ensures
            final(self).origin() == old(self).origin(),
            match r {
                Some(board) => {
                    &&& old(self).remaining().len() > 0
                    &&& board@ == old(self).remaining()[0]
                    &&& final(self).remaining() == old(self).remaining().drop_first()
                },
                None => old(self).remaining().len() == 0 && final(self).remaining().len() == 0,
            },
            r.is_some() && old(self).origin().valid() ==> r.unwrap()@.valid(),
    {
        loop
            invariant
                self.board == old(self).board,
                self.remaining() == old(self).remaining(),
            decreases self.board.blocks.len() - self.block, self.direction.steps_left(),
        {
            if self.block >= self.board.blocks.len() {
                return None;
            }
            let ghost before = *self;
            let attempt = self.board.try_move(self.block, &self.direction);
            let wrapped = self.direction.next();
            if wrapped {
                self.block += 1;
            }
            match attempt {
                Ok(board) => {
                    assert(self.remaining() =~= before.remaining().drop_first());
                    return Some(board);
                },
                Err(_) => {},
            }
        }
    }
}

} // verus!

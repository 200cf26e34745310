//! Solving a puzzle: the successors a best-first search expands, the search
//! itself, and the test that a path is a solution.

use vstd::prelude::*;
use crate::goal::Goal;
use crate::graph::Board;
use crate::grid::Grid;
use crate::laws::{
    lemma_estimate_never_exceeds_a_solution, lemma_neighbors_are_valid, lemma_neighbors_bounded,
};

verus! {

/// The cost of one move.
pub const MOVE_COST: u128 = 1;

/// Whether `path` leads from `start` to the goal: it begins with `start`,
/// each board after the first is a neighbour of the one before it, and the
/// last board satisfies the goal.
pub open spec fn solves(start: Grid, goal: Goal, path: Seq<Board>) -> bool {
    &&& path.len() >= 1
    &&& path[0]@ == start
    &&& goal.spec_is_goal(path[path.len() - 1]@)
    &&& forall|i: int|
        0 <= i < path.len() - 1 ==> (#[trigger] path[i])@.neighbors().contains(path[i + 1]@)
}

/// Whether some path leads from `start` to the goal.
pub open spec fn solvable(start: Grid, goal: Goal) -> bool {
    exists|path: Seq<Board>| #[trigger] solves(start, goal, path)
}

/// Whether every path from `start` to the goal takes `moves` moves or more.
pub open spec fn no_shorter(start: Grid, goal: Goal, moves: int) -> bool {
    forall|path: Seq<Board>| #[trigger] solves(start, goal, path) ==> moves <= path.len() - 1
}

/// Whether the goal's estimate of a board never exceeds the moves of a
/// path from that board to the goal.
pub open spec fn admissible(goal: Goal) -> bool {
    forall|from: Grid, path: Seq<Board>| #[trigger]
        solves(from, goal, path) ==> goal.spec_estimate(from) <= path.len() - 1
}

/// The neighbours of `board` in enumeration order, each with the cost of
/// the move that leads to it. There are at most four for each block, and
/// those of a valid board are valid.
pub fn successors(board: &Board) -> (r: Vec<(Board, u128)>)
    ensures
        r@.len() == board@.neighbors().len(),
        r@.len() <= 4 * board@.blocks.len(),
        forall|i: int|
            0 <= i < r@.len() ==> (#[trigger] r@[i]).0@ == board@.neighbors()[i] && r@[i].1
                == MOVE_COST,
        board@.valid() ==> forall|i: int| 0 <= i < r@.len() ==> (#[trigger] r@[i]).0@.valid(),
{
    let ghost all = board@.neighbors();
    let mut pending = board.neighbors();
    let mut found: Vec<(Board, u128)> = Vec::new();
    loop
        invariant
            all == board@.neighbors(),
            found@.len() <= all.len(),
            pending.remaining() == all.subrange(found@.len() as int, all.len() as int),
            forall|i: int|
                0 <= i < found@.len() ==> (#[trigger] found@[i]).0@ == all[i] && found@[i].1
                    == MOVE_COST,
        decreases pending.remaining().len(),
    {
        match pending.next() {
            Some(next) => {
                assert(next@ == all[found@.len() as int]);
                found.push((next, MOVE_COST));
                assert(pending.remaining() =~= all.subrange(
                    found@.len() as int,
                    all.len() as int,
                ));
            },
            None => {
                proof {
                    lemma_neighbors_bounded(board@);
                    if board@.valid() {
                        lemma_neighbors_are_valid(board@);
                    }
                }
                return found;
            },
        }
    }
}

/// Whether one legal move leads from `from` to `to`.
pub fn is_neighbor(from: &Board, to: &Board) -> (r: bool)
    ensures
        r == from@.neighbors().contains(to@),
{
    let ghost all = from@.neighbors();
    let ghost mut seen: int = 0;
    let mut pending = from.neighbors();
    loop
        invariant
            all == from@.neighbors(),
            0 <= seen <= all.len(),
            pending.remaining() == all.subrange(seen, all.len() as int),
            forall|i: int| 0 <= i < seen ==> all[i] != to@,
        decreases pending.remaining().len(),
    {
        match pending.next() {
            Some(next) => {
                assert(next@ == all[seen]);
                if next.same_as(to) {
                    return true;
                }
                proof {
                    seen = seen + 1;
                    assert(pending.remaining() =~= all.subrange(seen, all.len() as int));
                }
            },
            None => {
                return false;
            },
        }
    }
}

/// Whether `path` leads from `start` to the goal by legal moves.
pub fn is_solution(start: &Board, goal: &Goal, path: &Vec<Board>) -> (r: bool)
    ensures
        r == solves(start@, *goal, path@),
{
    let n = path.len();
    if n == 0 {
        return false;
    }
    if !path[0].same_as(start) || !goal.is_goal(&path[n - 1]) {
        return false;
    }
    let mut i: usize = 0;
    while i < n - 1
        invariant
            n == path.len(),
            n >= 1,
            i <= n - 1,
            forall|k: int| 0 <= k < i ==> (#[trigger] path@[k])@.neighbors().contains(path@[k + 1]@),
        decreases n - i,
    {
        if !is_neighbor(&path[i], &path[i + 1]) {
            assert(!path@[i as int]@.neighbors().contains(path@[i + 1]@));
            return false;
        }
        i += 1;
    }
    true
}

/// Runs `pathfinding::directed::astar::astar` from `start`, with
/// `successors` for the edges, the goal's estimate for the heuristic and the
/// goal's predicate for success, and keeps the path of what it returns. The
/// contract restates what that function documents. A path it returns
/// begins with the start, goes from node to successor and ends with a node
/// that meets the predicate. It is a shortest one, provided that the
/// heuristic never exceeds the true cost. `None` comes back only when no
/// path leads to such a node.
#[verifier::external_body]
fn astar_path(start: &Board, goal: &Goal) -> (found: Option<Vec<Board>>)
    ensures
        found.is_some() ==> solves(start@, *goal, found.unwrap()@),
        found.is_some() && admissible(*goal) ==> no_shorter(
            start@,
            *goal,
            found.unwrap()@.len() - 1,
        ),
        found.is_none() ==> !solvable(start@, *goal),
{
    pathfinding::directed::astar::astar(
        start,
        |board| successors(board),
        |board| goal.estimate(board),
        |board| goal.is_goal(board),
    ).map(|found| found.0)
}

/// Searches for a shortest path of legal moves from `start` to a board that
/// satisfies the goal, and gives it with its number of moves. A start that
/// satisfies the goal gives the path of that board alone. `None` says that
/// no moves lead from `start` to the goal: the search has then visited
/// every board that moves lead to. That the path is a solution, that none
/// is shorter and that `None` means none rests on the search of the
/// `pathfinding` crate; that the goal's estimate is one the search may be
/// led by is proved here.
pub fn solve(start: &Board, goal: &Goal) -> (r: Option<(Vec<Board>, u128)>)
    ensures
        r.is_some() <==> solvable(start@, *goal),
        r.is_some() ==> {
            let (path, cost) = r.unwrap();
            &&& solves(start@, *goal, path@)
            &&& cost == (path@.len() - 1) * MOVE_COST
            &&& no_shorter(start@, *goal, cost as int)
        },
        goal.spec_is_goal(start@) ==> r.is_some() && r.unwrap().0@.len() == 1,
{
    if goal.is_goal(start) {
        let mut path: Vec<Board> = Vec::new();
        path.push(start.clone());
        assert(solves(start@, *goal, path@));
        return Some((path, 0));
    }
    proof {
        assert forall|from: Grid, path: Seq<Board>| #[trigger]
            solves(from, *goal, path) implies goal.spec_estimate(from) <= path.len() - 1 by {
            lemma_estimate_never_exceeds_a_solution(from, *goal, path);
        }
    }
    match astar_path(start, goal) {
        Some(path) => {
            assert(solves(start@, *goal, path@));
            let cost = (path.len() - 1) as u128;
            Some((path, cost))
        },
        None => None,
    }
}

} // verus!

//! One behaviour per ghost mode, behind a common interface, with the
//! full-graph search as the way to move: the alternative to the tagged
//! modes and the greedy step of the game.

use vstd::prelude::*;
use crate::grid::Grid;
use crate::pathfinding::{is_path, searched, spec_find_path, AStar, AStarView};

verus! {

/// What a ghost in some mode does when it is its turn to move.
pub trait State {
    /// Whether a ghost at `from` may be at `to` after its turn, with the
    /// player at `player_pos` on a board of `width` by `height` cells.
    spec fn allows(
        &self,
        from: (i32, i32),
        to: (i32, i32),
        player_pos: (i32, i32),
        width: i32,
        height: i32,
    ) -> bool;

    /// Where a ghost at `from` is after its turn, with the player at
    /// `player_pos` and the search as `search` has it.
    spec fn destination(&self, search: AStarView, from: (i32, i32), player_pos: (i32, i32)) -> (i32, i32);

    /// What the turn of a ghost at `from` leaves of the search `search`.
    spec fn leaves(&self, search: AStarView, from: (i32, i32), player_pos: (i32, i32)) -> AStarView;

    /// Gives the ghost at `ghost_pos` its turn.
    fn move_around(
        &self,
        ghost_name: &str,
        ghost_pos: &mut (i32, i32),
        player_pos: (i32, i32),
        pathfinding: &mut AStar,
        grid: &Grid,
    )
        requires
            old(pathfinding).wf(),
            old(pathfinding)@.contains(*old(ghost_pos)),
        ensures
            final(pathfinding).wf(),
            final(pathfinding)@.width == old(pathfinding)@.width,
            final(pathfinding)@.height == old(pathfinding)@.height,
            self.allows(
                *old(ghost_pos),
                *final(ghost_pos),
                player_pos,
                old(pathfinding)@.width,
                old(pathfinding)@.height,
            ),
            *final(ghost_pos) == self.destination(old(pathfinding)@, *old(ghost_pos), player_pos),
            final(pathfinding)@ == self.leaves(old(pathfinding)@, *old(ghost_pos), player_pos),
    ;
}

/// The behaviour of a chasing ghost: one move along a path to the player.
pub struct ChaseState;

impl ChaseState {
    /// The behaviour; it holds no state of its own.
    pub fn new() -> (s: Self) {
        ChaseState {  }
    }
}

/// Whether `to` is the second cell of some path from `from` to `goal`.
pub open spec fn is_first_move(from: (i32, i32), to: (i32, i32), goal: (i32, i32), width: i32, height: i32) -> bool {
    exists|path: Seq<(i32, i32)>| #[trigger]
        is_path(path, from, goal, width, height) && path.len() > 1 && path[1] == to
}

impl State for ChaseState {
    /// A chasing ghost makes the first move of a path to the player. It
    /// stays where it is if it has caught the player, or if no path leads
    /// there.
    open spec fn allows(
        &self,
        from: (i32, i32),
        to: (i32, i32),
        player_pos: (i32, i32),
        width: i32,
        height: i32,
    ) -> bool {
        if from == player_pos {
            to == from
        } else if exists|path: Seq<(i32, i32)>| is_path(path, from, player_pos, width, height) {
            is_first_move(from, to, player_pos, width, height)
        } else {
            to == from
        }
    }

    /// A chasing ghost goes to the second cell of the path that the search
    /// finds from it to the player, and stays where it is if the search
    /// finds none, or one of a single cell.
    open spec fn destination(&self, search: AStarView, from: (i32, i32), player_pos: (i32, i32)) -> (i32, i32) {
        match spec_find_path(search, from, player_pos) {
            Some(path) => if path.len() > 1 {
                path[1]
            } else {
                from
            },
            None => from,
        }
    }

    /// A chasing ghost leaves the search as its search for the player
    /// leaves it.
    open spec fn leaves(&self, search: AStarView, from: (i32, i32), player_pos: (i32, i32)) -> AStarView {
        searched(search, from, player_pos)
    }

    /// Gives the ghost at `ghost_pos` its turn.
    fn move_around(
        &self,
        ghost_name: &str,
        ghost_pos: &mut (i32, i32),
        player_pos: (i32, i32),
        pathfinding: &mut AStar,
        grid: &Grid,
    ) {
        let from = *ghost_pos;
        if let Some(path) = pathfinding.find_path(from, player_pos) {
            if path.len() > 1 {
                *ghost_pos = path[1];
            }
        }
    }
}

/// The behaviour of a scattering ghost.
pub struct ScatterState;

impl ScatterState {
    /// The behaviour; it holds no state of its own.
    pub fn new() -> (s: Self) {
        ScatterState {  }
    }
}

impl State for ScatterState {
    /// A scattering ghost stays where it is.
    open spec fn allows(
        &self,
        from: (i32, i32),
        to: (i32, i32),
        player_pos: (i32, i32),
        width: i32,
        height: i32,
    ) -> bool {
        to == from
    }

    /// The ghost stays where it is.
    open spec fn destination(&self, search: AStarView, from: (i32, i32), player_pos: (i32, i32)) -> (i32, i32) {
        from
    }

    /// The search is left as it is.
    open spec fn leaves(&self, search: AStarView, from: (i32, i32), player_pos: (i32, i32)) -> AStarView {
        search
    }

    /// Gives the ghost at `ghost_pos` its turn.
    fn move_around(
        &self,
        ghost_name: &str,
        ghost_pos: &mut (i32, i32),
        player_pos: (i32, i32),
        pathfinding: &mut AStar,
        grid: &Grid,
    ) {
    }
}

/// The behaviour of a frightened ghost.
pub struct FrightenedState;

impl FrightenedState {
    /// The behaviour; it holds no state of its own.
    pub fn new() -> (s: Self) {
        FrightenedState {  }
    }
}

impl State for FrightenedState {
    /// A frightened ghost stays where it is.
    open spec fn allows(
        &self,
        from: (i32, i32),
        to: (i32, i32),
        player_pos: (i32, i32),
        width: i32,
        height: i32,
    ) -> bool {
        to == from
    }

    /// The ghost stays where it is.
    open spec fn destination(&self, search: AStarView, from: (i32, i32), player_pos: (i32, i32)) -> (i32, i32) {
        from
    }

    /// The search is left as it is.
    open spec fn leaves(&self, search: AStarView, from: (i32, i32), player_pos: (i32, i32)) -> AStarView {
        search
    }

    /// Gives the ghost at `ghost_pos` its turn.
    fn move_around(
        &self,
        ghost_name: &str,
        ghost_pos: &mut (i32, i32),
        player_pos: (i32, i32),
        pathfinding: &mut AStar,
        grid: &Grid,
    ) {
    }
}

/// The behaviour of an eaten ghost.
pub struct EatenState;

impl EatenState {
    /// The behaviour; it holds no state of its own.
    pub fn new() -> (s: Self) {
        EatenState {  }
    }
}

impl State for EatenState {
    /// An eaten ghost stays where it is.
    open spec fn allows(
        &self,
        from: (i32, i32),
        to: (i32, i32),
        player_pos: (i32, i32),
        width: i32,
        height: i32,
    ) -> bool {
        to == from
    }

    /// The ghost stays where it is.
    open spec fn destination(&self, search: AStarView, from: (i32, i32), player_pos: (i32, i32)) -> (i32, i32) {
        from
    }

    /// The search is left as it is.
    open spec fn leaves(&self, search: AStarView, from: (i32, i32), player_pos: (i32, i32)) -> AStarView {
        search
    }

    /// Gives the ghost at `ghost_pos` its turn.
    fn move_around(
        &self,
        ghost_name: &str,
        ghost_pos: &mut (i32, i32),
        player_pos: (i32, i32),
        pathfinding: &mut AStar,
        grid: &Grid,
    ) {
    }
}

} // verus!

//! The figures that a game is set up with.

use vstd::prelude::*;
use crate::utils::{check_bounds, in_bounds};

verus! {

/// The widest and the tallest grid that a game accepts. On a grid of this
/// size every cell that a chasing ghost can aim at, on or off the grid, has
/// coordinates that an `i32` can say.
pub const MAX_GRID_SIDE: i32 = 0x2000_0000;

/// The number of ghosts in a game.
pub const GHOST_COUNT: usize = 4;

/// The figures that a game is set up with. Lengths of time are in ticks.
pub struct GameConfig {
    /// The number of columns of the grid.
    pub grid_width: i32,
    /// The number of rows of the grid.
    pub grid_height: i32,
    /// The side of a tile in pixels.
    pub cell_size: i32,
    pub pacman_initial_pos: (i32, i32),
    pub pacman_initial_lives: i32,
    pub pacman_initial_score: i32,
    pub blinky_initial_pos: (i32, i32),
    pub pinky_initial_pos: (i32, i32),
    pub inky_initial_pos: (i32, i32),
    pub clyde_initial_pos: (i32, i32),
    /// The corner that Pinky retreats to.
    pub top_left_corner: (i32, i32),
    /// The corner that Blinky retreats to.
    pub top_right_corner: (i32, i32),
    /// The corner that Clyde retreats to.
    pub bottom_left_corner: (i32, i32),
    /// The corner that Inky retreats to.
    pub bottom_right_corner: (i32, i32),
    /// The cell that an eaten ghost returns to.
    pub ghosts_house_pos: (i32, i32),
    /// The time between two steps of the player at level zero.
    pub base_pacman_speed: u64,
    /// The least time between two steps of the player at any level.
    pub base_pacman_min_speed: u64,
    /// The time between two steps of the ghosts at level zero.
    pub base_ghost_speed: u64,
    /// The least time between two steps of the ghosts at any level.
    pub base_ghost_min_speed: u64,
    /// How long the game rests after a lost life or a cleared level.
    pub resume_game_interval: u64,
    /// What the first, second, ... ghost eaten after one power pellet is
    /// worth.
    pub eaten_ghosts_multipliers: Vec<i32>,
}

impl GameConfig {
    /// A configuration can be played if the grid has at least one cell and
    /// no side above [`MAX_GRID_SIDE`], if the player and the ghosts start
    /// on the grid, if the player starts with a number of lives and a score
    /// that are not negative, and if the table of ghost scores has an entry
    /// for each ghost and no negative entry.
    pub open spec fn valid(&self) -> bool {
        &&& 1 <= self.grid_width <= MAX_GRID_SIDE
        &&& 1 <= self.grid_height <= MAX_GRID_SIDE
        &&& in_bounds(self.pacman_initial_pos, self.grid_width, self.grid_height)
        &&& in_bounds(self.blinky_initial_pos, self.grid_width, self.grid_height)
        &&& in_bounds(self.pinky_initial_pos, self.grid_width, self.grid_height)
        &&& in_bounds(self.inky_initial_pos, self.grid_width, self.grid_height)
        &&& in_bounds(self.clyde_initial_pos, self.grid_width, self.grid_height)
        &&& 0 <= self.pacman_initial_lives
        &&& 0 <= self.pacman_initial_score
        &&& self.eaten_ghosts_multipliers@.len() >= GHOST_COUNT
        &&& forall|i: int|
            0 <= i < self.eaten_ghosts_multipliers@.len() ==> 0 <= #[trigger] self.eaten_ghosts_multipliers@[i]
    }

    /// Tells whether the configuration can be played.
    pub fn is_valid(&self) -> (b: bool)
        ensures
            b == self.valid(),
    {
        let w = self.grid_width;
        let h = self.grid_height;
        let fits = 1 <= w && w <= MAX_GRID_SIDE && 1 <= h && h <= MAX_GRID_SIDE && check_bounds(
            self.pacman_initial_pos,
            w,
            h,
        ) && check_bounds(self.blinky_initial_pos, w, h) && check_bounds(self.pinky_initial_pos, w, h)
            && check_bounds(self.inky_initial_pos, w, h) && check_bounds(self.clyde_initial_pos, w, h) && 0
            <= self.pacman_initial_lives && 0 <= self.pacman_initial_score && self.eaten_ghosts_multipliers.len()
            >= GHOST_COUNT;
        if !fits {
            return false;
        }
        let n = self.eaten_ghosts_multipliers.len();
        let mut i: usize = 0;
        while i < n
            invariant
                i <= n,
                n == self.eaten_ghosts_multipliers@.len(),
                forall|k: int| 0 <= k < i ==> 0 <= #[trigger] self.eaten_ghosts_multipliers@[k],
            decreases n - i,
        {
            if self.eaten_ghosts_multipliers[i] < 0 {
                return false;
            }
            i += 1;
        }
        true
    }
}

} // verus!

//! The player: position, facing, buffered turn, lives, score and the
//! pellets eaten so far.

use vstd::prelude::*;
use crate::enums::{Direction, Fruit};
use crate::grid::{Grid, GridView};
use crate::utils::{dir_dx, dir_dy, in_bounds, lemma_mod_of_unit_step, step_wrapped, wrap_step};

verus! {

/// The name of the player.
pub const PACMAN_NAME: &'static str = "Pacman";

/// What eating a pellet is worth.
pub const PELLET_POINTS: i32 = 10;

/// What eating a power pellet is worth.
pub const POWER_PELLET_POINTS: i32 = 50;

/// `x` brought into the range of `i32`.
pub open spec fn clamp_i32(x: int) -> i32 {
    if x < i32::MIN {
        i32::MIN
    } else if x > i32::MAX {
        i32::MAX
    } else {
        x as i32
    }
}

/// Adds `delta` to `score`; a sum outside the range of `i32` stops at the
/// nearer end of the range.
pub fn add_points(score: i32, delta: i32) -> (sum: i32)
    ensures
        sum == clamp_i32(score + delta),
{
    let wide: i64 = score as i64 + delta as i64;
    if wide < i32::MIN as i64 {
        i32::MIN
    } else if wide > i32::MAX as i64 {
        i32::MAX
    } else {
        wide as i32
    }
}

/// Where one step towards `dir` takes the player from `pos`. Columns are
/// glued into a ring, so a step off the left or right edge arrives on the
/// other side. Rows are not: a step off the top or bottom edge stays on the
/// edge.
pub open spec fn pacman_step(pos: (i32, i32), dir: Direction, width: i32, height: i32) -> (i32, i32) {
    match dir {
        Direction::Up => (pos.0, if pos.1 - 1 < 0 { 0i32 } else { (pos.1 - 1) as i32 }),
        Direction::Down => (pos.0, if pos.1 + 1 > height - 1 { (height - 1) as i32 } else { (pos.1 + 1) as i32 }),
        Direction::Left => (if pos.0 - 1 < 0 { (width - 1) as i32 } else { (pos.0 - 1) as i32 }, pos.1),
        Direction::Right => (if pos.0 + 1 > width - 1 { 0i32 } else { (pos.0 + 1) as i32 }, pos.1),
    }
}

/// `y` brought into `0..height`.
pub open spec fn clamp_row(y: int, height: int) -> int {
    if y < 0 {
        0
    } else if y > height - 1 {
        height - 1
    } else {
        y
    }
}

/// A step of the player from a cell of the board changes the column modulo
/// the width and clamps the row into the board; the row never wraps.
pub proof fn lemma_pacman_step_wraps_columns_clamps_rows(pos: (i32, i32), dir: Direction, width: i32, height: i32)
    requires
        in_bounds(pos, width, height),
    ensures
        pacman_step(pos, dir, width, height).0 == (pos.0 + dir_dx(dir)) % (width as int),
        pacman_step(pos, dir, width, height).1 == clamp_row(pos.1 + dir_dy(dir), height as int),
        in_bounds(pacman_step(pos, dir, width, height), width, height),
{
    lemma_mod_of_unit_step(pos.0 as int, dir_dx(dir), width as int);
}

/// The player.
pub struct Pacman {
    pub name: String,
    pub pos: (i32, i32),
    pub direction: Direction,
    pub expected_direction: Option<Direction>,
    pub lives: i32,
    pub score: i32,
    pub eaten_pellets: Vec<(i32, i32)>,
}

/// The mathematical content of a player.
pub struct PacmanView {
    pub name: Seq<char>,
    pub pos: (i32, i32),
    pub direction: Direction,
    pub expected_direction: Option<Direction>,
    pub lives: i32,
    pub score: i32,
    pub eaten_pellets: Seq<(i32, i32)>,
}

impl View for Pacman {
    type V = PacmanView;

    open spec fn view(&self) -> PacmanView {
        PacmanView {
            name: self.name@,
            pos: self.pos,
            direction: self.direction,
            expected_direction: self.expected_direction,
            lives: self.lives,
            score: self.score,
            eaten_pellets: self.eaten_pellets@,
        }
    }
}

/// The cell that the player looks at before a step towards `dir`. Columns
/// are glued into a ring, rows are not: the cell above the top row and the
/// cell below the bottom row lie off the board.
pub open spec fn pacman_sight(pos: (i32, i32), dir: Direction, width: i32, height: i32) -> (int, int) {
    (wrap_step(pos, dir, width, height).0 as int, pos.1 + dir_dy(dir))
}

impl PacmanView {
    /// Whether the tile next to the player towards `dir` can be entered:
    /// the cell looked at lies on the grid, and its tile is neither a wall
    /// nor the door of the ghost house.
    pub open spec fn can_move(self, dir: Direction, grid: GridView) -> bool {
        let next = pacman_sight(self.pos, dir, grid.num_cols, grid.num_rows);
        0 <= next.1 < grid.num_rows && grid.pacman_can_enter((next.0 as i32, next.1 as i32))
    }

    /// The facing after the buffered turn, if there is one and it can be
    /// taken, has been committed.
    pub open spec fn turned(self, grid: GridView) -> Direction {
        match self.expected_direction {
            Some(wanted) => if self.can_move(wanted, grid) {
                wanted
            } else {
                self.direction
            },
            None => self.direction,
        }
    }

    /// The player after one movement tick: the buffered turn is committed
    /// if its tile can be entered, then the player advances one cell along
    /// its facing if that tile can be entered, and stays in place if not.
    pub open spec fn moved(self, grid: GridView) -> PacmanView {
        let facing = self.turned(grid);
        PacmanView {
            direction: facing,
            pos: if self.can_move(facing, grid) {
                pacman_step(self.pos, facing, grid.num_cols, grid.num_rows)
            } else {
                self.pos
            },
            ..self
        }
    }

    /// The player after eating what lies on its cell for `points`.
    pub open spec fn fed(self, points: i32) -> PacmanView {
        PacmanView {
            eaten_pellets: self.eaten_pellets.push(self.pos),
            score: clamp_i32(self.score + points),
            ..self
        }
    }

    /// The player with `points` added to the score.
    pub open spec fn rewarded(self, points: i32) -> PacmanView {
        PacmanView { score: clamp_i32(self.score + points), ..self }
    }

    /// The player with one life fewer; a player that has no life left
    /// stays as it is.
    pub open spec fn hurt(self) -> PacmanView {
        PacmanView {
            lives: if self.lives > 0 {
                (self.lives - 1) as i32
            } else {
                self.lives
            },
            ..self
        }
    }

    /// Whether the pellet at `pos` has been eaten.
    pub open spec fn has_eaten(self, pos: (i32, i32)) -> bool {
        self.eaten_pellets.contains(pos)
    }
}

/// A player that can move towards `dir` steps onto the very tile it looked
/// at: a tile of the grid that lets it in.
pub proof fn lemma_player_steps_onto_the_tile_looked_at(player: PacmanView, dir: Direction, grid: GridView)
    requires
        player.can_move(dir, grid),
    ensures
        ({
            let next = pacman_sight(player.pos, dir, grid.num_cols, grid.num_rows);
            &&& pacman_step(player.pos, dir, grid.num_cols, grid.num_rows) == (next.0 as i32, next.1 as i32)
            &&& grid.pacman_can_enter(pacman_step(player.pos, dir, grid.num_cols, grid.num_rows))
        }),
{
}

/// On the top row the player cannot move up, and on the bottom row it
/// cannot move down, whatever lies in the row at the other end of the
/// column.
pub proof fn lemma_player_never_leaves_by_a_row(player: PacmanView, grid: GridView)
    ensures
        player.pos.1 <= 0 ==> !player.can_move(Direction::Up, grid),
        player.pos.1 >= grid.num_rows - 1 ==> !player.can_move(Direction::Down, grid),
{
}

/// A player on the grid is on the grid after a movement tick: it either
/// stays where it is, or its column is the old one plus the step modulo the
/// width, and its row the old one plus the step, clamped into the grid.
pub proof fn lemma_player_stays_on_the_grid(player: PacmanView, grid: GridView)
    requires
        grid.contains(player.pos),
    ensures
        grid.contains(player.moved(grid).pos),
        player.moved(grid).pos == player.pos || {
            &&& player.moved(grid).pos.0 == (player.pos.0 + dir_dx(player.moved(grid).direction)) % (
            grid.num_cols as int)
            &&& player.moved(grid).pos.1 == clamp_row(
                player.pos.1 + dir_dy(player.moved(grid).direction),
                grid.num_rows as int,
            )
        },
{
    lemma_pacman_step_wraps_columns_clamps_rows(player.pos, player.turned(grid), grid.num_cols, grid.num_rows);
}

impl Pacman {
    /// A player that has eaten nothing and has no turn buffered.
    pub fn new(name: String, pos: (i32, i32), lives: i32, direction: Direction, score: i32) -> (p: Self)
        ensures
            p@ == (PacmanView {
                name: name@,
                pos,
                direction,
                expected_direction: None,
                lives,
                score,
                eaten_pellets: Seq::empty(),
            }),
    {
        Pacman { name, pos, direction, lives, score, expected_direction: None, eaten_pellets: Vec::new() }
    }

    /// Runs one movement tick on `grid`.
    pub fn move_around(&mut self, grid: &Grid)
        requires
            grid.wf(),
        ensures
            final(self)@ == old(self)@.moved(grid@),
    {
        if let Some(expected_direction) = self.expected_direction {
            if self.can_move(expected_direction, grid) {
                self.direction = expected_direction;
            }
        }
        if self.can_move(self.direction, grid) {
            self.update_position(grid.get_num_cols(), grid.get_num_rows());
        }
    }

    /// Advances one cell along the current facing on a board of `width`
    /// columns and `height` rows, whatever lies there.
    pub fn update_position(&mut self, width: i32, height: i32)
        requires
            1 <= width,
            1 <= height,
        ensures
            final(self)@ == (PacmanView {
                pos: pacman_step(old(self).pos, old(self).direction, width, height),
                ..old(self)@
            }),
    {
        match self.direction {
            Direction::Up => {
                if self.pos.1 <= 0 {
                    self.pos.1 = 0;
                } else {
                    self.pos.1 -= 1;
                }
            },
            Direction::Down => {
                if self.pos.1 >= height - 1 {
                    self.pos.1 = height - 1;
                } else {
                    self.pos.1 += 1;
                }
            },
            Direction::Left => {
                if self.pos.0 <= 0 {
                    self.pos.0 = width - 1;
                } else {
                    self.pos.0 -= 1;
                }
            },
            Direction::Right => {
                if self.pos.0 >= width - 1 {
                    self.pos.0 = 0;
                } else {
                    self.pos.0 += 1;
                }
            },
        }
    }

    /// Tells whether the tile next to the player towards `direction` can be
    /// entered. Sideways the player looks round the edge of the grid; up
    /// and down it does not, and finds nothing to enter beyond the top and
    /// the bottom row.
    pub fn can_move(&self, direction: Direction, grid: &Grid) -> (b: bool)
        requires
            grid.wf(),
        ensures
            b == self@.can_move(direction, grid@),
    {
        let width = grid.get_num_cols();
        let height = grid.get_num_rows();
        let new_pos = match direction {
            Direction::Up => {
                if self.pos.1 <= 0 {
                    return false;
                }
                (self.pos.0, self.pos.1 - 1)
            },
            Direction::Down => {
                if self.pos.1 >= height - 1 {
                    return false;
                }
                (self.pos.0, self.pos.1 + 1)
            },
            _ => step_wrapped(self.pos, direction, width, height),
        };
        match grid.get_tile(new_pos) {
            Some(next_tile) => next_tile.is_walkable_for_pacman(),
            None => false,
        }
    }

    /// The horizontal pixel coordinate of the player on cells of
    /// `cell_size` pixels.
    pub fn get_pixels_x(&self, cell_size: i32) -> (x: i32)
        requires
            i32::MIN <= self.pos.0 * cell_size <= i32::MAX,
        ensures
            x == self.pos.0 * cell_size,
    {
        self.pos.0 * cell_size
    }

    /// The vertical pixel coordinate of the player on cells of `cell_size`
    /// pixels.
    pub fn get_pixels_y(&self, cell_size: i32) -> (y: i32)
        requires
            i32::MIN <= self.pos.1 * cell_size <= i32::MAX,
        ensures
            y == self.pos.1 * cell_size,
    {
        self.pos.1 * cell_size
    }

    /// Eats the pellet on the player's cell.
    pub fn eat_pellet(&mut self)
        ensures
            final(self)@ == old(self)@.fed(PELLET_POINTS),
    {
        self.eaten_pellets.push(self.pos);
        self.score = add_points(self.score, PELLET_POINTS);
    }

    /// Eats the power pellet on the player's cell.
    pub fn eat_power_pellet(&mut self)
        ensures
            final(self)@ == old(self)@.fed(POWER_PELLET_POINTS),
    {
        self.eaten_pellets.push(self.pos);
        self.score = add_points(self.score, POWER_PELLET_POINTS);
    }

    /// Takes one life away, if one is left.
    pub fn lose_life(&mut self)
        ensures
            final(self)@ == old(self)@.hurt(),
    {
        if self.lives > 0 {
            self.lives -= 1;
        }
    }

    /// Tells whether the pellet at `pos` has been eaten.
    pub fn has_eaten(&self, pos: (i32, i32)) -> (b: bool)
        ensures
            b == self@.has_eaten(pos),
    {
        let n = self.eaten_pellets.len();
        let mut i: usize = 0;
        while i < n
            invariant
                i <= n,
                n == self.eaten_pellets@.len(),
                forall|k: int| 0 <= k < i ==> self.eaten_pellets@[k] != pos,
            decreases n - i,
        {
            let cell = self.eaten_pellets[i];
            if cell.0 == pos.0 && cell.1 == pos.1 {
                return true;
            }
            i += 1;
        }
        false
    }

    /// The lives left.
    pub fn get_lives(&self) -> (n: i32)
        ensures
            n == self.lives,
    {
        self.lives
    }

    /// The score.
    pub fn get_score(&self) -> (n: i32)
        ensures
            n == self.score,
    {
        self.score
    }

    /// Scores a ghost: the `multiplier`-th entry of `table`, where
    /// `multiplier` counts the ghosts already eaten since the last power
    /// pellet.
    pub fn eat_ghost(&mut self, multiplier: usize, table: &Vec<i32>)
        requires
            multiplier < table@.len(),
        ensures
            final(self)@ == old(self)@.rewarded(table@[multiplier as int]),
    {
        self.score = add_points(self.score, table[multiplier]);
    }

    /// Scores a bonus item.
    pub fn eat_fruit(&mut self, fruit: Fruit)
        ensures
            final(self)@ == old(self)@.rewarded(fruit.points()),
    {
        let points: i32 = match fruit {
            Fruit::Cherry => 100,
            Fruit::Strawberry => 300,
            Fruit::Orange => 500,
            Fruit::Apple => 700,
            Fruit::Melon => 1000,
            Fruit::Galaxian => 2000,
            Fruit::Bell => 3000,
            Fruit::Key => 5000,
        };
        self.score = add_points(self.score, points);
    }
}

} // verus!

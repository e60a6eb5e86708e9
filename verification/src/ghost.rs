//! The ghosts: who they are, where each one aims while chasing, and the
//! greedy one-step search that moves them.

use vstd::prelude::*;
use crate::enums::{Direction, GhostState};
use crate::grid::{Grid, GridView};
use crate::utils::{
    dir_dx,
    dir_dy,
    lemma_wrap_step_is_modular,
    manhattan_distance,
    spec_manhattan_distance,
    step_wrapped,
    wrap_step,
};

verus! {

/// The name of the ghost that pursues the player directly.
pub const BLINKY_NAME: &'static str = "Blinky";

/// The name of the ghost that lies in ambush ahead of the player.
pub const PINKY_NAME: &'static str = "Pinky";

/// The name of the ghost that flanks the player.
pub const INKY_NAME: &'static str = "Inky";

/// The name of the ghost that keeps its distance.
pub const CLYDE_NAME: &'static str = "Clyde";

/// How many cells ahead of the player the ambusher aims.
pub const AMBUSH_LEAD: i32 = 4;

/// How many cells ahead of the player the flanker's pivot lies.
pub const FLANK_LEAD: i32 = 2;

/// The distance to the player up to which the shy pursuer retreats.
pub const SHY_DISTANCE: i64 = 8;

/// Which of the four characters a ghost is.
#[derive(Copy, Clone, Debug, PartialEq, Eq, Structural)]
pub enum Identity {
    Blinky,
    Pinky,
    Inky,
    Clyde,
    Unknown,
}

/// The character that goes by `name`.
pub open spec fn identity_of(name: Seq<char>) -> Identity {
    if name == BLINKY_NAME@ {
        Identity::Blinky
    } else if name == PINKY_NAME@ {
        Identity::Pinky
    } else if name == INKY_NAME@ {
        Identity::Inky
    } else if name == CLYDE_NAME@ {
        Identity::Clyde
    } else {
        Identity::Unknown
    }
}

/// The cell `lead` steps from `pos` towards `dir`, on an unbounded board.
pub open spec fn cell_ahead(pos: (i32, i32), dir: Direction, lead: int) -> (int, int) {
    (pos.0 + lead * dir_dx(dir), pos.1 + lead * dir_dy(dir))
}

/// The mirror image of `blinky_pos` through `ahead`, taken twice as far:
/// `ahead + 2 * (ahead - blinky_pos)`.
pub open spec fn spec_inky_vec(ahead: (int, int), blinky_pos: (int, int)) -> (int, int) {
    (ahead.0 + 2 * (ahead.0 - blinky_pos.0), ahead.1 + 2 * (ahead.1 - blinky_pos.1))
}

/// Whether both coordinates of `p` are in the range of `i32`.
pub open spec fn fits_i32(p: (int, int)) -> bool {
    i32::MIN <= p.0 <= i32::MAX && i32::MIN <= p.1 <= i32::MAX
}

/// The cell `p` as a pair of `i32`.
pub open spec fn as_cell(p: (int, int)) -> (i32, i32) {
    (p.0 as i32, p.1 as i32)
}

/// Where the flanker aims, given the pivot `ahead` of the player.
pub fn calculate_inky_vec(ahead: (i32, i32), blinky_pos: (i32, i32)) -> (t: (i32, i32))
    requires
        fits_i32(spec_inky_vec((ahead.0 as int, ahead.1 as int), (blinky_pos.0 as int, blinky_pos.1 as int))),
    ensures
        (t.0 as int, t.1 as int) == spec_inky_vec(
            (ahead.0 as int, ahead.1 as int),
            (blinky_pos.0 as int, blinky_pos.1 as int),
        ),
{
    let dx: i64 = ahead.0 as i64 - blinky_pos.0 as i64;
    let dy: i64 = ahead.1 as i64 - blinky_pos.1 as i64;
    ((ahead.0 as i64 + 2 * dx) as i32, (ahead.1 as i64 + 2 * dy) as i32)
}

/// The flanker's target: the pivot two cells ahead of the player, pushed
/// away from the pursuer by twice their offset.
pub open spec fn spec_target_inky(pacman_dir: Direction, pacman_pos: (i32, i32), blinky_pos: (i32, i32)) -> (
    int,
    int,
) {
    spec_inky_vec(cell_ahead(pacman_pos, pacman_dir, FLANK_LEAD as int), (blinky_pos.0 as int, blinky_pos.1 as int))
}

/// Where the flanker aims. The pivot and the target must have coordinates
/// that an `i32` can say.
pub fn get_target_inky(pacman_dir: Direction, pacman_pos: (i32, i32), blinky_pos: (i32, i32)) -> (t: (i32, i32))
    requires
        fits_i32(cell_ahead(pacman_pos, pacman_dir, FLANK_LEAD as int)),
        fits_i32(spec_target_inky(pacman_dir, pacman_pos, blinky_pos)),
    ensures
        (t.0 as int, t.1 as int) == spec_target_inky(pacman_dir, pacman_pos, blinky_pos),
{
    let (pacman_x, pacman_y) = pacman_pos;
    let dx: i32 = match pacman_dir {
        Direction::Left => -1,
        Direction::Right => 1,
        _ => 0,
    };
    let dy: i32 = match pacman_dir {
        Direction::Up => -1,
        Direction::Down => 1,
        _ => 0,
    };
    let ahead = (pacman_x + FLANK_LEAD * dx, pacman_y + FLANK_LEAD * dy);
    calculate_inky_vec(ahead, blinky_pos)
}

/// The ambusher's target: the cell four steps ahead of the player.
pub open spec fn spec_target_pinky(pacman_dir: Direction, pacman_pos: (i32, i32)) -> (int, int) {
    cell_ahead(pacman_pos, pacman_dir, AMBUSH_LEAD as int)
}

/// Where the ambusher aims. The target must have coordinates that an `i32`
/// can say.
pub fn get_target_pinky(pacman_dir: Direction, pacman_pos: (i32, i32)) -> (t: (i32, i32))
    requires
        fits_i32(spec_target_pinky(pacman_dir, pacman_pos)),
    ensures
        (t.0 as int, t.1 as int) == spec_target_pinky(pacman_dir, pacman_pos),
{
    let dx: i32 = match pacman_dir {
        Direction::Left => -1,
        Direction::Right => 1,
        _ => 0,
    };
    let dy: i32 = match pacman_dir {
        Direction::Up => -1,
        Direction::Down => 1,
        _ => 0,
    };
    (pacman_pos.0 + AMBUSH_LEAD * dx, pacman_pos.1 + AMBUSH_LEAD * dy)
}

/// The shy pursuer's target: the player while more than eight cells away,
/// its own corner once it is closer.
pub open spec fn spec_target_clyde(pacman_pos: (i32, i32), clyde_pos: (i32, i32), scatter_pos: (i32, i32)) -> (
    i32,
    i32,
) {
    if spec_manhattan_distance(pacman_pos, clyde_pos) > SHY_DISTANCE {
        pacman_pos
    } else {
        scatter_pos
    }
}

/// Where the shy pursuer at `clyde_pos` aims, with `scatter_pos` as its
/// corner.
pub fn get_target_clyde(pacman_pos: (i32, i32), clyde_pos: (i32, i32), scatter_pos: (i32, i32)) -> (t: (i32, i32))
    ensures
        t == spec_target_clyde(pacman_pos, clyde_pos, scatter_pos),
{
    if manhattan_distance(pacman_pos, clyde_pos) > SHY_DISTANCE {
        pacman_pos
    } else {
        scatter_pos
    }
}

/// The four directions in the order in which a ghost tries them. Of two
/// steps that bring it equally near its target, a ghost takes the one that
/// comes first here.
pub open spec fn priority(dir: Direction) -> int {
    match dir {
        Direction::Up => 0,
        Direction::Down => 1,
        Direction::Left => 2,
        Direction::Right => 3,
    }
}

/// The cell right behind a ghost at `pos` that faces `facing`.
pub open spec fn cell_behind(pos: (i32, i32), facing: Direction, grid: GridView) -> (i32, i32) {
    wrap_step(pos, facing.opposite(), grid.num_cols, grid.num_rows)
}

/// Whether a ghost at `pos` that faces `facing` may step towards `dir`:
/// the step must not land on the cell behind it, and the tile there must
/// let ghosts in.
pub open spec fn may_step(pos: (i32, i32), facing: Direction, dir: Direction, grid: GridView) -> bool {
    let cell = wrap_step(pos, dir, grid.num_cols, grid.num_rows);
    cell != cell_behind(pos, facing, grid) && grid.ghost_can_enter(cell)
}

/// How far from `target` a step towards `dir` leaves a ghost.
pub open spec fn step_cost(pos: (i32, i32), dir: Direction, target: (i32, i32), grid: GridView) -> int {
    spec_manhattan_distance(wrap_step(pos, dir, grid.num_cols, grid.num_rows), target)
}

/// The better of the step chosen so far and the step towards `dir`: the
/// new one wins only if it is allowed and strictly nearer to the target.
pub open spec fn prefer(
    best: Option<Direction>,
    dir: Direction,
    pos: (i32, i32),
    facing: Direction,
    target: (i32, i32),
    grid: GridView,
) -> Option<Direction> {
    if may_step(pos, facing, dir, grid) && (best is None || step_cost(pos, dir, target, grid) < step_cost(
        pos,
        best->0,
        target,
        grid,
    )) {
        Some(dir)
    } else {
        best
    }
}

/// The direction a ghost takes towards `target`, or `None` if no step is
/// allowed.
pub open spec fn chosen_direction(pos: (i32, i32), facing: Direction, target: (i32, i32), grid: GridView) -> Option<
    Direction,
> {
    let a = prefer(None, Direction::Up, pos, facing, target, grid);
    let b = prefer(a, Direction::Down, pos, facing, target, grid);
    let c = prefer(b, Direction::Left, pos, facing, target, grid);
    prefer(c, Direction::Right, pos, facing, target, grid)
}

/// The step that a ghost takes is allowed, is as near to the target as any
/// allowed step, and comes first in the order of trial among the allowed
/// steps that are as near; a ghost stays only if no step is allowed.
pub proof fn lemma_chosen_direction_is_nearest(
    pos: (i32, i32),
    facing: Direction,
    target: (i32, i32),
    grid: GridView,
)
    ensures
        chosen_direction(pos, facing, target, grid) is None <==> forall|d: Direction|
            !may_step(pos, facing, d, grid),
        chosen_direction(pos, facing, target, grid) matches Some(c) ==> {
            &&& may_step(pos, facing, c, grid)
            &&& forall|d: Direction| #[trigger]
                may_step(pos, facing, d, grid) ==> {
                    ||| step_cost(pos, c, target, grid) < step_cost(pos, d, target, grid)
                    ||| step_cost(pos, c, target, grid) == step_cost(pos, d, target, grid) && priority(c)
                        <= priority(d)
                }
        },
{
    let a = prefer(None, Direction::Up, pos, facing, target, grid);
    let b = prefer(a, Direction::Down, pos, facing, target, grid);
    let c = prefer(b, Direction::Left, pos, facing, target, grid);
    let r = prefer(c, Direction::Right, pos, facing, target, grid);
    assert forall|d: Direction| r is None implies !may_step(pos, facing, d, grid) by {
        match d {
            Direction::Up => {},
            Direction::Down => {},
            Direction::Left => {},
            Direction::Right => {},
        }
    }
    if let Some(best) = r {
        assert forall|d: Direction| #[trigger] may_step(pos, facing, d, grid) implies {
            ||| step_cost(pos, best, target, grid) < step_cost(pos, d, target, grid)
            ||| step_cost(pos, best, target, grid) == step_cost(pos, d, target, grid) && priority(best)
                <= priority(d)
        } by {
            match d {
                Direction::Up => {},
                Direction::Down => {},
                Direction::Left => {},
                Direction::Right => {},
            }
        }
    }
}

/// A ghost never steps onto the cell right behind it.
pub proof fn lemma_never_reverses(pos: (i32, i32), facing: Direction, target: (i32, i32), grid: GridView)
    ensures
        chosen_direction(pos, facing, target, grid) matches Some(d) ==> wrap_step(
            pos,
            d,
            grid.num_cols,
            grid.num_rows,
        ) != cell_behind(pos, facing, grid),
{
    lemma_chosen_direction_is_nearest(pos, facing, target, grid);
}

/// A ghost on the grid that takes a step arrives at its column and row
/// plus the step, reduced modulo the width and the height of the grid, and
/// faces the way it went. A ghost that takes no step stays as it is. Either
/// way it is on the grid afterwards.
pub proof fn lemma_ghost_moves_modulo_the_sides(who: GhostEntity, target: (i32, i32), grid: GridView)
    requires
        grid.contains(who.pos),
    ensures
        grid.contains(who.moved(target, grid).pos),
        match chosen_direction(who.pos, who.direction, target, grid) {
            Some(d) => {
                &&& who.moved(target, grid).pos.0 == (who.pos.0 + dir_dx(d)) % (grid.num_cols as int)
                &&& who.moved(target, grid).pos.1 == (who.pos.1 + dir_dy(d)) % (grid.num_rows as int)
                &&& who.moved(target, grid).direction == d
            },
            None => who.moved(target, grid) == who,
        },
{
    match chosen_direction(who.pos, who.direction, target, grid) {
        Some(d) => {
            lemma_wrap_step_is_modular(who.pos, d, grid.num_cols, grid.num_rows);
        },
        None => {},
    }
}

/// A ghost.
pub struct GhostEntity {
    pub name: String,
    pub pos: (i32, i32),
    pub direction: Direction,
    pub state: GhostState,
    pub scatter_pos: (i32, i32),
}

impl GhostEntity {
    /// A ghost that scatters and faces left.
    pub fn new(name: String, pos: (i32, i32), scatter_pos: (i32, i32)) -> (g: Self)
        ensures
            g == (GhostEntity { name, pos, state: GhostState::Scatter, direction: Direction::Left, scatter_pos }),
    {
        GhostEntity { name, pos, state: GhostState::Scatter, direction: Direction::Left, scatter_pos }
    }

    /// Which character this ghost is.
    pub open spec fn spec_identity(&self) -> Identity {
        identity_of(self.name@)
    }

    /// Tells which character this ghost is, by its name.
    pub fn identity(&self) -> (id: Identity)
        ensures
            id == self.spec_identity(),
    {
        if self.name == BLINKY_NAME.to_owned() {
            Identity::Blinky
        } else if self.name == PINKY_NAME.to_owned() {
            Identity::Pinky
        } else if self.name == INKY_NAME.to_owned() {
            Identity::Inky
        } else if self.name == CLYDE_NAME.to_owned() {
            Identity::Clyde
        } else {
            Identity::Unknown
        }
    }

    /// The ghost after one step towards `target`: at the chosen cell and
    /// facing the way it went, or unchanged if no step is allowed.
    pub open spec fn moved(self, target: (i32, i32), grid: GridView) -> GhostEntity {
        match chosen_direction(self.pos, self.direction, target, grid) {
            Some(d) => GhostEntity { pos: wrap_step(self.pos, d, grid.num_cols, grid.num_rows), direction: d, ..self },
            None => self,
        }
    }

    /// Takes one step towards `target`, if a step is allowed.
    pub fn move_around(&mut self, target: (i32, i32), grid: &Grid)
        requires
            grid.wf(),
        ensures
            *final(self) == old(self).moved(target, grid@),
    {
        if let Some(new_pos) = self.move_to_target(target, grid) {
            self.pos = new_pos;
        }
    }

    /// The horizontal pixel coordinate of the ghost on cells of `cell_size`
    /// pixels.
    pub fn get_pixels_x(&self, cell_size: i32) -> (x: i32)
        requires
            i32::MIN <= self.pos.0 * cell_size <= i32::MAX,
        ensures
            x == self.pos.0 * cell_size,
    {
        self.pos.0 * cell_size
    }

    /// The vertical pixel coordinate of the ghost on cells of `cell_size`
    /// pixels.
    pub fn get_pixels_y(&self, cell_size: i32) -> (y: i32)
        requires
            i32::MIN <= self.pos.1 * cell_size <= i32::MAX,
        ensures
            y == self.pos.1 * cell_size,
    {
        self.pos.1 * cell_size
    }

    /// Holds the step towards `dir` against the best step found so far, and
    /// returns the better of the two with its cell and its distance.
    fn consider(
        &self,
        best: Option<(Direction, (i32, i32), i64)>,
        dir: Direction,
        behind: (i32, i32),
        target: (i32, i32),
        grid: &Grid,
    ) -> (r: Option<(Direction, (i32, i32), i64)>)
        requires
            grid.wf(),
            behind == cell_behind(self.pos, self.direction, grid@),
            best matches Some(b) ==> b.1 == wrap_step(self.pos, b.0, grid@.num_cols, grid@.num_rows) && b.2
                == step_cost(self.pos, b.0, target, grid@),
        ensures
            r matches Some(b) ==> b.1 == wrap_step(self.pos, b.0, grid@.num_cols, grid@.num_rows) && b.2
                == step_cost(self.pos, b.0, target, grid@),
            (match r {
                Some(b) => Some(b.0),
                None => None,
            }) == prefer(
                match best {
                    Some(b) => Some(b.0),
                    None => None,
                },
                dir,
                self.pos,
                self.direction,
                target,
                grid@,
            ),
    {
        let cell = step_wrapped(self.pos, dir, grid.get_num_cols(), grid.get_num_rows());
        if cell.0 == behind.0 && cell.1 == behind.1 {
            return best;
        }
        let open = match grid.get_tile(cell) {
            Some(tile) => tile.is_walkable_for_ghost(),
            None => false,
        };
        if !open {
            return best;
        }
        let distance = manhattan_distance(cell, target);
        match best {
            Some(b) => if distance < b.2 {
                Some((dir, cell, distance))
            } else {
                best
            },
            None => Some((dir, cell, distance)),
        }
    }

    /// Chooses the step towards `target` and turns to face it. Returns the
    /// cell to step onto, or `None`, with the facing unchanged, if no step
    /// is allowed. The ghost is not moved.
    pub fn move_to_target(&mut self, target: (i32, i32), game_grid: &Grid) -> (r: Option<(i32, i32)>)
        requires
            game_grid.wf(),
        ensures
            match chosen_direction(old(self).pos, old(self).direction, target, game_grid@) {
                Some(d) => {
                    &&& r == Some(wrap_step(old(self).pos, d, game_grid@.num_cols, game_grid@.num_rows))
                    &&& *final(self) == (GhostEntity { direction: d, ..*old(self) })
                },
                None => r is None && *final(self) == *old(self),
            },
            r matches Some(cell) ==> cell != cell_behind(old(self).pos, old(self).direction, game_grid@),
    {
        let behind = step_wrapped(
            self.pos,
            self.direction.opposite(),
            game_grid.get_num_cols(),
            game_grid.get_num_rows(),
        );
        let a = self.consider(None, Direction::Up, behind, target, game_grid);
        let b = self.consider(a, Direction::Down, behind, target, game_grid);
        let c = self.consider(b, Direction::Left, behind, target, game_grid);
        let best = self.consider(c, Direction::Right, behind, target, game_grid);
        proof {
            lemma_never_reverses(self.pos, self.direction, target, game_grid@);
        }
        match best {
            Some(found) => {
                self.direction = found.0;
                Some(found.1)
            },
            None => None,
        }
    }
}

} // verus!

//! The game itself: the state machine that, tick by tick, moves the player
//! and the ghosts, settles what they run into, and keeps the score.

use vstd::prelude::*;
use std::collections::VecDeque;
use rand::Rng;
use crate::config::GameConfig;
use crate::enums::{Direction, GhostState};
use crate::ghost::{
    get_target_clyde,
    get_target_inky,
    get_target_pinky,
    GhostEntity,
    Identity,
    BLINKY_NAME,
    CLYDE_NAME,
    INKY_NAME,
    PINKY_NAME,
};
use crate::grid::{load_error, Grid, MapError, TileType};
use crate::model::{
    calmed,
    find_blinky,
    frightened,
    lemma_advance_schedule_keeps_wf,
    lemma_check_collision_keeps_wf,
    lemma_collide_with_keeps_wf,
    lemma_count_none,
    lemma_count_same,
    lemma_ghost_moved_stays,
    lemma_move_ghosts_keeps_wf,
    lemma_lost_life_ends_or_rests,
    lemma_pacman_turn_keeps_wf,
    lemma_power_pellet_frightens,
    lemma_restart_keeps_wf,
    lemma_settle_fright_keeps_wf,
    mode_schedule,
    sent_home,
    spec_frightened_duration,
    state_after_loss,
    switched,
    wander_at,
    GameView,
    FEARLESS_LEVEL,
    FIRST_MODE_SECONDS,
};
use crate::player::{
    clamp_i32,
    lemma_pacman_step_wraps_columns_clamps_rows,
    Pacman,
    PacmanView,
    PACMAN_NAME,
    POWER_PELLET_POINTS,
};
use crate::utils::{get_speed_for_level, TICKS_PER_SECOND};

verus! {

/// What the game as a whole is doing.
#[derive(Copy, Clone, Debug, PartialEq, Eq, Structural)]
pub enum GameState {
    Playing,
    Paused,
    GameOver,
    Restarting,
    Frightened,
}

/// Why a game cannot be set up.
#[derive(Copy, Clone, Debug, PartialEq, Eq, Structural)]
pub enum GameError {
    /// The configuration cannot be played.
    BadConfig,
    /// The map cannot be loaded.
    BadMap(MapError),
}

/// Frightens every ghost that is not on its way home.
fn frighten_ghosts(ghosts: &mut Vec<GhostEntity>)
    ensures
        final(ghosts)@ == frightened(old(ghosts)@),
{
    let n = ghosts.len();
    let mut i: usize = 0;
    while i < n
        invariant
            i <= n,
            ghosts@.len() == n,
            old(ghosts)@.len() == n,
            forall|j: int| 0 <= j < i ==> ghosts@[j] == frightened(old(ghosts)@)[j],
            forall|j: int| i <= j < n ==> ghosts@[j] == old(ghosts)@[j],
        decreases n - i,
    {
        if ghosts[i].state != GhostState::Eaten {
            ghosts[i].state = GhostState::Frightened;
        }
        i += 1;
    }
    assert(ghosts@ =~= frightened(old(ghosts)@));
}

/// Puts every frightened ghost into `mode`.
fn calm_ghosts(ghosts: &mut Vec<GhostEntity>, mode: GhostState)
    ensures
        final(ghosts)@ == calmed(old(ghosts)@, mode),
{
    let n = ghosts.len();
    let mut i: usize = 0;
    while i < n
        invariant
            i <= n,
            ghosts@.len() == n,
            old(ghosts)@.len() == n,
            forall|j: int| 0 <= j < i ==> ghosts@[j] == calmed(old(ghosts)@, mode)[j],
            forall|j: int| i <= j < n ==> ghosts@[j] == old(ghosts)@[j],
        decreases n - i,
    {
        if ghosts[i].state == GhostState::Frightened {
            ghosts[i].state = mode;
        }
        i += 1;
    }
    assert(ghosts@ =~= calmed(old(ghosts)@, mode));
}

/// Puts every ghost that is neither frightened nor eaten into `mode`.
fn switch_ghosts(ghosts: &mut Vec<GhostEntity>, mode: GhostState)
    ensures
        final(ghosts)@ == switched(old(ghosts)@, mode),
{
    let n = ghosts.len();
    let mut i: usize = 0;
    while i < n
        invariant
            i <= n,
            ghosts@.len() == n,
            old(ghosts)@.len() == n,
            forall|j: int| 0 <= j < i ==> ghosts@[j] == switched(old(ghosts)@, mode)[j],
            forall|j: int| i <= j < n ==> ghosts@[j] == old(ghosts)@[j],
        decreases n - i,
    {
        if ghosts[i].state != GhostState::Eaten && ghosts[i].state != GhostState::Frightened {
            ghosts[i].state = mode;
        }
        i += 1;
    }
    assert(ghosts@ =~= switched(old(ghosts)@, mode));
}

/// The schedule of a game that starts or restarts.
fn fresh_schedule() -> (q: VecDeque<u64>)
    ensures
        q@ == mode_schedule(),
{
    let mut q: VecDeque<u64> = VecDeque::new();
    q.push_back(20 * TICKS_PER_SECOND);
    q.push_back(7 * TICKS_PER_SECOND);
    q.push_back(20 * TICKS_PER_SECOND);
    q.push_back(5 * TICKS_PER_SECOND);
    q.push_back(1 * TICKS_PER_SECOND);
    assert(q@ =~= mode_schedule());
    q
}

/// Draws a number from `0..bound` with `rand::Rng::random_range` on the
/// generator of the calling thread, `rand::rng()`. It is trusted that the
/// number lies in the range; which one it is, nothing says. The range must
/// not be empty, else the call panics.
#[verifier::external_body]
fn random_below(bound: i32) -> (r: i32)
    requires
        0 < bound,
    ensures
        0 <= r < bound,
{
    rand::rng().random_range(0..bound)
}

/// The game: the grid, the player, the ghosts, the clocks and the schedule.
pub struct Game {
    ghosts: Vec<GhostEntity>,
    pacman: Pacman,
    grid: Grid,
    config: GameConfig,
    level: usize,
    pacman_timer: u64,
    ghost_timer: u64,
    state_timer: u64,
    restart_game_timer: u64,
    frightened_timer: u64,
    switch_state_interval: Option<u64>,
    state_intervals: VecDeque<u64>,
    ghosts_state: GhostState,
    multiplier: usize,
    game_state: GameState,
}

impl View for Game {
    type V = GameView;

    closed spec fn view(&self) -> GameView {
        GameView {
            ghosts: self.ghosts@,
            pacman: self.pacman@,
            grid: self.grid@,
            config: self.config,
            level: self.level,
            pacman_timer: self.pacman_timer,
            ghost_timer: self.ghost_timer,
            state_timer: self.state_timer,
            restart_game_timer: self.restart_game_timer,
            frightened_timer: self.frightened_timer,
            switch_state_interval: self.switch_state_interval,
            state_intervals: self.state_intervals@,
            ghosts_state: self.ghosts_state,
            multiplier: self.multiplier,
            game_state: self.game_state,
        }
    }
}

impl Game {
    /// The tiles of the grid are the ones its view tells of.
    pub closed spec fn tiles_agree(&self) -> bool {
        self.grid.tiles_agree()
    }

    /// The invariant of a game.
    pub open spec fn wf(&self) -> bool {
        self.tiles_agree() && self@.wf()
    }

    /// Sets a game up on the map `map`.
    pub fn new(map: &str, config: GameConfig) -> (res: Result<Game, GameError>)
        ensures
            match res {
                Ok(game) => {
                    &&& config.valid()
                    &&& load_error(map@, config.cell_size, config.grid_width, config.grid_height) is None
                    &&& game.wf()
                    &&& game@.is_initial(map@, config)
                },
                Err(GameError::BadConfig) => !config.valid(),
                Err(GameError::BadMap(e)) => {
                    &&& config.valid()
                    &&& load_error(map@, config.cell_size, config.grid_width, config.grid_height) == Some(e)
                },
            },
    {
        if !config.is_valid() {
            return Err(GameError::BadConfig);
        }
        let grid = match Grid::new(map, config.cell_size, config.grid_width, config.grid_height) {
            Ok(grid) => grid,
            Err(e) => {
                return Err(GameError::BadMap(e));
            },
        };
        let mut ghosts: Vec<GhostEntity> = Vec::new();
        let pacman = Pacman::new(
            PACMAN_NAME.to_owned(),
            config.pacman_initial_pos,
            config.pacman_initial_lives,
            Direction::Left,
            config.pacman_initial_score,
        );
        ghosts.push(GhostEntity::new(BLINKY_NAME.to_owned(), config.blinky_initial_pos, config.top_right_corner));
        ghosts.push(GhostEntity::new(PINKY_NAME.to_owned(), config.pinky_initial_pos, config.top_left_corner));
        ghosts.push(GhostEntity::new(CLYDE_NAME.to_owned(), config.clyde_initial_pos, config.bottom_left_corner));
        ghosts.push(GhostEntity::new(INKY_NAME.to_owned(), config.inky_initial_pos, config.bottom_right_corner));
        let game = Game {
            pacman,
            ghosts,
            grid,
            config,
            level: 1,
            pacman_timer: 0,
            ghost_timer: 0,
            state_timer: 0,
            restart_game_timer: 0,
            state_intervals: fresh_schedule(),
            switch_state_interval: Some(FIRST_MODE_SECONDS * TICKS_PER_SECOND),
            frightened_timer: 0,
            ghosts_state: GhostState::Scatter,
            multiplier: 0,
            game_state: GameState::Playing,
        };
        proof {
            lemma_count_none(game.ghosts@);
        }
        Ok(game)
    }

    /// The player.
    pub fn get_pacman(&self) -> (p: &Pacman)
        ensures
            p@ == self@.pacman,
    {
        &self.pacman
    }

    /// The ghosts.
    pub fn get_ghosts(&self) -> (g: &Vec<GhostEntity>)
        ensures
            g@ == self@.ghosts,
    {
        &self.ghosts
    }

    /// The grid.
    pub fn get_grid(&self) -> (g: &Grid)
        ensures
            g@ == self@.grid,
            self.wf() ==> g.wf(),
    {
        &self.grid
    }

    /// The figures that the game was set up with.
    pub fn get_config(&self) -> (c: &GameConfig)
        ensures
            *c == self@.config,
    {
        &self.config
    }

    /// The level, counted from one.
    pub fn get_level(&self) -> (l: usize)
        ensures
            l == self@.level,
    {
        self.level
    }

    /// What the game as a whole is doing.
    pub fn get_game_state(&self) -> (s: GameState)
        ensures
            s == self@.game_state,
    {
        self.game_state
    }

    /// The scheduled mode of the ghosts.
    pub fn get_ghosts_state(&self) -> (s: GhostState)
        ensures
            s == self@.ghosts_state,
    {
        self.ghosts_state
    }

    /// The number of ghosts eaten since the last power pellet.
    pub fn get_multiplier(&self) -> (m: usize)
        ensures
            m == self@.multiplier,
    {
        self.multiplier
    }

    /// Buffers a turn: the player takes `direction` as soon as the tile
    /// that way can be entered.
    pub fn handle_input(&mut self, direction: Direction)
        ensures
            final(self)@ == (GameView {
                pacman: PacmanView { expected_direction: Some(direction), ..old(self)@.pacman },
                ..old(self)@
            }),
            old(self).wf() ==> final(self).wf(),
    {
        self.pacman.expected_direction = Some(direction);
    }

    /// For how many seconds a power pellet frightens the ghosts at the
    /// current level.
    pub fn get_frightened_duration(&self) -> (seconds: i32)
        ensures
            seconds == spec_frightened_duration(self@.level),
            0 <= seconds <= 7,
    {
        if self.level >= FEARLESS_LEVEL {
            0
        } else {
            7 - self.level as i32
        }
    }

    /// Lets the player eat what lies on its cell. A power pellet that has
    /// not been eaten frightens every ghost that is not on its way home,
    /// sets the count of eaten ghosts to zero, is entered among the eaten
    /// pellets, and is worth fifty points, as far as the score can hold
    /// them.
    pub fn check_collision(&mut self)
        requires
            old(self).wf(),
        ensures
            final(self).wf(),
            final(self)@ == old(self)@.check_collision(),
            old(self)@.grid.kind(old(self)@.pacman.pos) == Some(TileType::PowerPellet) && !old(self)@.pacman.has_eaten(
                old(self)@.pacman.pos,
            ) ==> {
                &&& final(self)@.multiplier == 0
                &&& final(self)@.game_state == GameState::Frightened
                &&& final(self)@.pacman.has_eaten(old(self)@.pacman.pos)
                &&& final(self)@.pacman.score == clamp_i32(old(self)@.pacman.score + POWER_PELLET_POINTS)
                &&& old(self)@.pacman.score + POWER_PELLET_POINTS <= i32::MAX ==> final(self)@.pacman.score
                    == old(self)@.pacman.score + POWER_PELLET_POINTS
                &&& final(self)@.ghosts.len() == old(self)@.ghosts.len()
                &&& forall|i: int|
                    0 <= i < old(self)@.ghosts.len() ==> (#[trigger] final(self)@.ghosts[i]).state == (if old(
                        self,
                    )@.ghosts[i].state == GhostState::Eaten {
                        GhostState::Eaten
                    } else {
                        GhostState::Frightened
                    })
            },
    {
        proof {
            lemma_check_collision_keeps_wf(self@);
            if self@.grid.kind(self@.pacman.pos) == Some(TileType::PowerPellet) && !self@.pacman.has_eaten(
                self@.pacman.pos,
            ) {
                lemma_power_pellet_frightens(self@);
            }
        }
        let pos = self.pacman.pos;
        let kind = match self.grid.get_tile(pos) {
            Some(tile) => tile.type_,
            None => {
                return ;
            },
        };
        if self.pacman.has_eaten(pos) {
            return ;
        }
        if kind == TileType::Pellet {
            self.pacman.eat_pellet();
        } else if kind == TileType::PowerPellet {
            self.pacman.eat_power_pellet();
            self.game_state = GameState::Frightened;
            self.frightened_timer = 0;
            frighten_ghosts(&mut self.ghosts);
            self.multiplier = 0;
        }
    }

    /// Holds the player against every ghost in turn. No life is added, and
    /// none is taken that is not there. If a life was lost, the game is
    /// over when none is left, and rests otherwise.
    pub fn check_ghosts_collision(&mut self)
        requires
            old(self).wf(),
        ensures
            final(self).wf(),
            final(self)@ == old(self)@.check_ghosts_collision(),
            0 <= final(self)@.pacman.lives <= old(self)@.pacman.lives,
            final(self)@.pacman.lives < old(self)@.pacman.lives ==> final(self)@.game_state == state_after_loss(
                final(self)@.pacman.lives,
            ),
    {
        proof {
            lemma_lost_life_ends_or_rests(self@, self@.ghosts.len());
        }
        let n = self.ghosts.len();
        let mut i: usize = 0;
        while i < n
            invariant
                i <= n,
                n == old(self)@.ghosts.len(),
                self.wf(),
                self@ == old(self)@.collide_upto(i as nat),
                self@.ghosts.len() == n,
            decreases n - i,
        {
            proof {
                lemma_collide_with_keeps_wf(self@, i as int);
            }
            let ghost_pos = self.ghosts[i].pos;
            let ghost_state = self.ghosts[i].state;
            let entries = self.config.eaten_ghosts_multipliers.len();
            if ghost_pos.0 == self.pacman.pos.0 && ghost_pos.1 == self.pacman.pos.1 {
                if ghost_state == GhostState::Frightened {
                    self.ghosts[i].state = GhostState::Eaten;
                    self.pacman.eat_ghost(self.multiplier, &self.config.eaten_ghosts_multipliers);
                    self.multiplier += 1;
                } else if ghost_state != GhostState::Eaten {
                    self.pacman.lose_life();
                    if self.pacman.lives <= 0 {
                        self.game_state = GameState::GameOver;
                    } else {
                        self.game_state = GameState::Restarting;
                        self.restart_game_timer = 0;
                    }
                }
            }
            i += 1;
        }
    }

    /// Tells whether every pellet and power pellet has been eaten.
    pub fn has_win(&self) -> (b: bool)
        requires
            self.wf(),
        ensures
            b == self@.has_win(),
    {
        let width = self.grid.get_num_cols();
        let height = self.grid.get_num_rows();
        let mut col: i32 = 0;
        while col < width
            invariant
                self.wf(),
                width == self@.grid.num_cols,
                height == self@.grid.num_rows,
                0 <= col <= width,
                forall|pos: (i32, i32)|
                    pos.0 < col && #[trigger] self@.grid.is_edible(pos) ==> self@.pacman.has_eaten(pos),
            decreases width - col,
        {
            let mut row: i32 = 0;
            while row < height
                invariant
                    self.wf(),
                    width == self@.grid.num_cols,
                    height == self@.grid.num_rows,
                    0 <= col < width,
                    0 <= row <= height,
                    forall|pos: (i32, i32)|
                        pos.0 < col && #[trigger] self@.grid.is_edible(pos) ==> self@.pacman.has_eaten(pos),
                    forall|pos: (i32, i32)|
                        pos.0 == col && pos.1 < row && #[trigger] self@.grid.is_edible(pos)
                            ==> self@.pacman.has_eaten(pos),
                decreases height - row,
            {
                match self.grid.get_tile((col, row)) {
                    Some(tile) => {
                        if (tile.type_ == TileType::Pellet || tile.type_ == TileType::PowerPellet)
                            && !self.pacman.has_eaten((col, row)) {
                            assert(self@.grid.is_edible((col, row)));
                            return false;
                        }
                    },
                    None => {},
                }
                row += 1;
            }
            col += 1;
        }
        true
    }

    /// Finds where Blinky stands.
    fn blinky_position(&self) -> (p: (i32, i32))
        ensures
            p == self@.blinky_pos(),
            find_blinky(self@.ghosts, 0) is None ==> p == (0i32, 0i32),
            find_blinky(self@.ghosts, 0) is Some ==> exists|i: int|
                0 <= i < self@.ghosts.len() && p == (#[trigger] self@.ghosts[i]).pos,
    {
        let n = self.ghosts.len();
        let mut i: usize = 0;
        while i < n
            invariant
                i <= n,
                n == self.ghosts@.len(),
                find_blinky(self.ghosts@, 0) == find_blinky(self.ghosts@, i as int),
            decreases n - i,
        {
            if self.ghosts[i].identity() == Identity::Blinky {
                return self.ghosts[i].pos;
            }
            i += 1;
        }
        (0, 0)
    }

    /// Where the `i`-th ghost aims.
    fn target_of(&self, i: usize, blinky_pos: (i32, i32), wander: (i32, i32)) -> (t: (i32, i32))
        requires
            self.wf(),
            i < self@.ghosts.len(),
            self@.grid.contains(blinky_pos),
        ensures
            t == self@.ghost_target(self@.ghosts[i as int], blinky_pos, wander),
    {
        let who = &self.ghosts[i];
        match who.state {
            GhostState::Chase => match who.identity() {
                Identity::Pinky => get_target_pinky(self.pacman.direction, self.pacman.pos),
                Identity::Inky => get_target_inky(self.pacman.direction, self.pacman.pos, blinky_pos),
                Identity::Blinky => self.pacman.pos,
                Identity::Clyde => get_target_clyde(self.pacman.pos, who.pos, who.scatter_pos),
                Identity::Unknown => (0, 0),
            },
            GhostState::Scatter => who.scatter_pos,
            GhostState::Frightened => wander,
            GhostState::Eaten => self.config.ghosts_house_pos,
        }
    }

    /// Gives every ghost its turn to move; the `i`-th frightened ghost
    /// flees towards `wander[i]`.
    pub fn move_ghosts(&mut self, wander: &Vec<(i32, i32)>)
        requires
            old(self).wf(),
        ensures
            final(self).wf(),
            final(self)@ == old(self)@.move_ghosts(wander@),
    {
        proof {
            lemma_move_ghosts_keeps_wf(self@, wander@);
        }
        let blinky_pos = self.blinky_position();
        let n = self.ghosts.len();
        let ghost before = self@;
        let mut i: usize = 0;
        while i < n
            invariant
                i <= n,
                before == old(self)@,
                before.wf(),
                self.wf(),
                n == before.ghosts.len(),
                self@ == (GameView { ghosts: self@.ghosts, ..before }),
                self@.ghosts.len() == n,
                blinky_pos == before.blinky_pos(),
                before.grid.contains(blinky_pos),
                forall|j: int|
                    0 <= j < i ==> self@.ghosts[j] == before.ghost_moved(before.ghosts[j], wander_at(wander@, j)),
                forall|j: int| i <= j < n ==> self@.ghosts[j] == before.ghosts[j],
            decreases n - i,
        {
            let drawn = if i < wander.len() {
                wander[i]
            } else {
                (0, 0)
            };
            let ghost prev = self@;
            assert(prev.ghosts[i as int] == before.ghosts[i as int]);
            let target = self.target_of(i, blinky_pos, drawn);
            let house = self.config.ghosts_house_pos;
            let at_home = self.ghosts[i].pos.0 == house.0 && self.ghosts[i].pos.1 == house.1;
            if at_home && self.ghosts[i].state == GhostState::Eaten {
                self.ghosts[i].state = self.ghosts_state;
            } else {
                self.ghosts[i].move_around(target, &self.grid);
            }
            proof {
                let moved = before.ghost_moved(before.ghosts[i as int], wander_at(wander@, i as int));
                lemma_ghost_moved_stays(before, before.ghosts[i as int], wander_at(wander@, i as int));
                assert(self@.ghosts =~= prev.ghosts.update(i as int, moved));
                lemma_count_same(self@.ghosts, prev.ghosts);
            }
            i += 1;
        }
        assert(self@.ghosts =~= before.move_ghosts(wander@).ghosts);
    }

    /// Where the `i`-th ghost starts from.
    fn home_of(&self, i: usize) -> (p: (i32, i32))
        requires
            i < self@.ghosts.len(),
        ensures
            p == self@.home_of(self@.ghosts[i as int]),
    {
        match self.ghosts[i].identity() {
            Identity::Blinky => self.config.blinky_initial_pos,
            Identity::Pinky => self.config.pinky_initial_pos,
            Identity::Inky => self.config.inky_initial_pos,
            Identity::Clyde => self.config.clyde_initial_pos,
            Identity::Unknown => (0, 0),
        }
    }

    /// Puts everyone back where they started and starts the clocks and the
    /// schedule anew.
    pub fn restart_game(&mut self)
        requires
            old(self).wf(),
        ensures
            final(self).wf(),
            final(self)@ == old(self)@.restart_game(),
    {
        proof {
            lemma_restart_keeps_wf(self@);
        }
        self.pacman.pos = self.config.pacman_initial_pos;
        let n = self.ghosts.len();
        let ghost before = self@;
        let mut i: usize = 0;
        while i < n
            invariant
                i <= n,
                n == before.ghosts.len(),
                self.tiles_agree(),
                before == (GameView {
                    pacman: PacmanView { pos: old(self)@.config.pacman_initial_pos, ..old(self)@.pacman },
                    ..old(self)@
                }),
                self@ == (GameView { ghosts: self@.ghosts, ..before }),
                self@.ghosts.len() == n,
                forall|j: int| 0 <= j < i ==> self@.ghosts[j] == sent_home(before)[j],
                forall|j: int| i <= j < n ==> self@.ghosts[j] == before.ghosts[j],
            decreases n - i,
        {
            let home = self.home_of(i);
            self.ghosts[i].pos = home;
            self.ghosts[i].state = GhostState::Scatter;
            i += 1;
        }
        proof {
            assert(self@.ghosts =~= sent_home(before));
            assert(sent_home(before) =~= sent_home(old(self)@));
        }
        self.pacman_timer = 0;
        self.ghost_timer = 0;
        self.state_timer = 0;
        self.switch_state_interval = Some(FIRST_MODE_SECONDS * TICKS_PER_SECOND);
        self.state_intervals = fresh_schedule();
        self.game_state = GameState::Playing;
        self.frightened_timer = 0;
        self.ghosts_state = GhostState::Scatter;
        self.multiplier = 0;
    }

    /// Ends the fright if its time is up.
    fn settle_fright(&mut self)
        requires
            old(self).wf(),
        ensures
            final(self).wf(),
            final(self)@ == old(self)@.settle_fright(),
    {
        proof {
            lemma_settle_fright_keeps_wf(self@);
        }
        if self.game_state == GameState::Frightened {
            let seconds = self.get_frightened_duration();
            if self.frightened_timer >= seconds as u64 * TICKS_PER_SECOND {
                self.game_state = GameState::Playing;
                self.frightened_timer = 0;
                self.multiplier = 0;
                calm_ghosts(&mut self.ghosts, self.ghosts_state);
            }
        }
    }

    /// Gives the player its turn.
    fn pacman_turn(&mut self)
        requires
            old(self).wf(),
        ensures
            final(self).wf(),
            final(self)@ == old(self)@.pacman_turn(),
    {
        proof {
            lemma_pacman_turn_keeps_wf(self@);
            lemma_pacman_step_wraps_columns_clamps_rows(
                self@.pacman.pos,
                self@.pacman.turned(self@.grid),
                self@.grid.num_cols,
                self@.grid.num_rows,
            );
        }
        self.pacman_timer = 0;
        self.pacman.move_around(&self.grid);
        self.check_collision();
        self.check_ghosts_collision();
        if self.game_state != GameState::GameOver && self.has_win() {
            self.pacman.eaten_pellets.clear();
            if self.level < usize::MAX {
                self.level += 1;
            }
            self.game_state = GameState::Restarting;
            self.restart_game_timer = 0;
        }
    }

    /// Gives the ghosts their turn.
    fn ghosts_turn(&mut self, wander: &Vec<(i32, i32)>)
        requires
            old(self).wf(),
        ensures
            final(self).wf(),
            final(self)@ == old(self)@.ghosts_turn(wander@),
    {
        self.ghost_timer = 0;
        self.move_ghosts(wander);
        self.check_ghosts_collision();
    }

    /// Switches the schedule if the time of the current mode is up.
    fn advance_schedule(&mut self)
        requires
            old(self).wf(),
        ensures
            final(self).wf(),
            final(self)@ == old(self)@.advance_schedule(),
    {
        proof {
            lemma_advance_schedule_keeps_wf(self@);
        }
        if let Some(interval) = self.switch_state_interval {
            if self.state_timer >= interval {
                self.switch_state_interval = self.state_intervals.pop_front();
                if self.ghosts_state == GhostState::Chase {
                    self.ghosts_state = GhostState::Scatter;
                } else if self.ghosts_state == GhostState::Scatter {
                    self.ghosts_state = GhostState::Chase;
                }
                switch_ghosts(&mut self.ghosts, self.ghosts_state);
                self.state_timer = 0;
            }
        }
    }

    /// Advances the game by `dt` ticks. The `i`-th ghost, if it is
    /// frightened when the ghosts move, flees towards `wander[i]`, or
    /// towards the origin if `wander` is too short.
    pub fn update_with(&mut self, dt: u64, wander: &Vec<(i32, i32)>)
        requires
            old(self).wf(),
        ensures
            final(self).wf(),
            final(self)@ == old(self)@.update(dt, wander@),
    {
        if self.game_state == GameState::Restarting {
            self.restart_game_timer = self.restart_game_timer.saturating_add(dt);
            if self.restart_game_timer >= self.config.resume_game_interval {
                self.restart_game();
            }
            return ;
        }
        if self.game_state == GameState::Paused || self.game_state == GameState::GameOver {
            return ;
        }
        let pacman_interval = get_speed_for_level(
            self.config.base_pacman_speed,
            self.level,
            self.config.base_pacman_min_speed,
        );
        let ghost_interval = get_speed_for_level(
            self.config.base_ghost_speed,
            self.level,
            self.config.base_ghost_min_speed,
        );
        self.pacman_timer = self.pacman_timer.saturating_add(dt);
        self.ghost_timer = self.ghost_timer.saturating_add(dt);
        self.state_timer = self.state_timer.saturating_add(dt);
        self.frightened_timer = self.frightened_timer.saturating_add(dt);
        self.settle_fright();
        if self.pacman_timer >= pacman_interval {
            self.pacman_turn();
        }
        if self.ghost_timer >= ghost_interval {
            self.ghosts_turn(wander);
        }
        self.advance_schedule();
    }

    /// Draws, for every ghost, a cell of the grid to flee towards.
    pub fn draw_wander_targets(&self) -> (wander: Vec<(i32, i32)>)
        requires
            self.wf(),
        ensures
            wander@.len() == self@.ghosts.len(),
            forall|i: int| 0 <= i < wander@.len() ==> self@.grid.contains(#[trigger] wander@[i]),
    {
        let n = self.ghosts.len();
        let width = self.grid.get_num_cols();
        let height = self.grid.get_num_rows();
        let mut wander: Vec<(i32, i32)> = Vec::new();
        let mut i: usize = 0;
        while i < n
            invariant
                i <= n,
                1 <= width,
                1 <= height,
                width == self@.grid.num_cols,
                height == self@.grid.num_rows,
                wander@.len() == i,
                forall|k: int| 0 <= k < wander@.len() ==> self@.grid.contains(#[trigger] wander@[k]),
            decreases n - i,
        {
            let random_x = random_below(width);
            let random_y = random_below(height);
            wander.push((random_x, random_y));
            i += 1;
        }
        wander
    }

    /// Advances the game by `dt` ticks. Frightened ghosts flee towards
    /// cells of the grid drawn at random, one for each ghost.
    pub fn update(&mut self, dt: u64)
        requires
            old(self).wf(),
        ensures
            final(self).wf(),
            exists|wander: Seq<(i32, i32)>|
                {
                    &&& wander.len() == old(self)@.ghosts.len()
                    &&& forall|i: int| 0 <= i < wander.len() ==> old(self)@.grid.contains(#[trigger] wander[i])
                    &&& final(self)@ == old(self)@.update(dt, wander)
                },
    {
        let wander = self.draw_wander_targets();
        self.update_with(dt, &wander);
    }
}

} // verus!

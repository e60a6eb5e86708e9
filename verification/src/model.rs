//! The game as a mathematical object: what it holds, how each step of an
//! update changes it, and what stays true of it whatever happens.

use vstd::prelude::*;
use crate::config::{GameConfig, GHOST_COUNT};
use crate::enums::{Direction, GhostState};
use crate::game::GameState;
use crate::ghost::{
    as_cell,
    chosen_direction,
    spec_target_clyde,
    spec_target_inky,
    spec_target_pinky,
    GhostEntity,
    Identity,
    BLINKY_NAME,
    CLYDE_NAME,
    INKY_NAME,
    PINKY_NAME,
};
use crate::grid::{loaded_view, GridView, TileType};
use crate::player::{
    clamp_i32,
    lemma_pacman_step_wraps_columns_clamps_rows,
    PacmanView,
    PACMAN_NAME,
    PELLET_POINTS,
    POWER_PELLET_POINTS,
};
use crate::utils::{lemma_wrap_step_is_modular, spec_speed_for_level, TICKS_PER_SECOND};

verus! {

/// How long the ghosts keep their first mode, in seconds.
pub const FIRST_MODE_SECONDS: u64 = 7;

/// The level from which a power pellet no longer frightens for any length
/// of time.
pub const FEARLESS_LEVEL: usize = 7;

/// The lengths, in ticks, of the modes that follow the first one.
pub open spec fn mode_schedule() -> Seq<u64> {
    seq![
        (20 * TICKS_PER_SECOND) as u64,
        (7 * TICKS_PER_SECOND) as u64,
        (20 * TICKS_PER_SECOND) as u64,
        (5 * TICKS_PER_SECOND) as u64,
        (1 * TICKS_PER_SECOND) as u64,
    ]
}

/// A timer that has run for `t` ticks, `dt` ticks later. A timer stops at
/// the greatest `u64`.
pub open spec fn ticked(t: u64, dt: u64) -> u64 {
    if t + dt > u64::MAX {
        u64::MAX
    } else {
        (t + dt) as u64
    }
}

/// The level after `level`. The count stops at the greatest `usize`.
pub open spec fn next_level(level: usize) -> usize {
    if level < usize::MAX {
        (level + 1) as usize
    } else {
        level
    }
}

/// For how many seconds a power pellet frightens the ghosts at `level`:
/// seven less the level, and not at all from level seven on.
pub open spec fn spec_frightened_duration(level: usize) -> i32 {
    if level >= FEARLESS_LEVEL {
        0
    } else {
        (7 - level) as i32
    }
}

/// The state that a lost life leaves the game in: over when no life is
/// left, resting otherwise.
pub open spec fn state_after_loss(lives: i32) -> GameState {
    if lives <= 0 {
        GameState::GameOver
    } else {
        GameState::Restarting
    }
}

/// The number of frightened ghosts among `ghosts`.
pub open spec fn frightened_count(ghosts: Seq<GhostEntity>) -> nat
    decreases ghosts.len(),
{
    if ghosts.len() == 0 {
        0
    } else {
        frightened_count(ghosts.drop_last()) + if ghosts.last().state == GhostState::Frightened {
            1nat
        } else {
            0nat
        }
    }
}

/// `who` in the mode `state`.
pub open spec fn in_state(who: GhostEntity, state: GhostState) -> GhostEntity {
    GhostEntity { state, ..who }
}

/// The ghosts once a power pellet was eaten: all frightened but those that
/// were eaten and have not come home yet.
pub open spec fn frightened(ghosts: Seq<GhostEntity>) -> Seq<GhostEntity> {
    Seq::new(
        ghosts.len(),
        |i: int|
            if ghosts[i].state != GhostState::Eaten {
                in_state(ghosts[i], GhostState::Frightened)
            } else {
                ghosts[i]
            },
    )
}

/// The ghosts once the fright is over: those that were frightened are in
/// the scheduled mode `mode` again.
pub open spec fn calmed(ghosts: Seq<GhostEntity>, mode: GhostState) -> Seq<GhostEntity> {
    Seq::new(
        ghosts.len(),
        |i: int|
            if ghosts[i].state == GhostState::Frightened {
                in_state(ghosts[i], mode)
            } else {
                ghosts[i]
            },
    )
}

/// The ghosts once the schedule switched to `mode`: all in that mode but
/// the frightened and the eaten ones, which keep theirs.
pub open spec fn switched(ghosts: Seq<GhostEntity>, mode: GhostState) -> Seq<GhostEntity> {
    Seq::new(
        ghosts.len(),
        |i: int|
            if ghosts[i].state != GhostState::Eaten && ghosts[i].state != GhostState::Frightened {
                in_state(ghosts[i], mode)
            } else {
                ghosts[i]
            },
    )
}

/// The position of the first ghost from index `from` on that is Blinky.
pub open spec fn find_blinky(ghosts: Seq<GhostEntity>, from: int) -> Option<(i32, i32)>
    decreases ghosts.len() - from,
{
    if from < 0 || from >= ghosts.len() {
        None
    } else if ghosts[from].spec_identity() == Identity::Blinky {
        Some(ghosts[from].pos)
    } else {
        find_blinky(ghosts, from + 1)
    }
}

/// The random cell drawn for the `i`-th ghost, or the origin if none was
/// drawn for it.
pub open spec fn wander_at(wander: Seq<(i32, i32)>, i: int) -> (i32, i32) {
    if 0 <= i < wander.len() {
        wander[i]
    } else {
        (0, 0)
    }
}

/// Whether `who` has just been made under `name` at `pos`, with `corner` to
/// retreat to.
pub open spec fn is_fresh_ghost(who: GhostEntity, name: Seq<char>, pos: (i32, i32), corner: (i32, i32)) -> bool {
    &&& who.name@ == name
    &&& who.pos == pos
    &&& who.direction == Direction::Left
    &&& who.state == GhostState::Scatter
    &&& who.scatter_pos == corner
}

/// The mathematical content of a game.
pub struct GameView {
    pub ghosts: Seq<GhostEntity>,
    pub pacman: PacmanView,
    pub grid: GridView,
    pub config: GameConfig,
    pub level: usize,
    /// Ticks since the player last moved.
    pub pacman_timer: u64,
    /// Ticks since the ghosts last moved.
    pub ghost_timer: u64,
    /// Ticks since the schedule last switched modes.
    pub state_timer: u64,
    /// Ticks spent resting since the rest began.
    pub restart_game_timer: u64,
    /// Ticks since the last power pellet was eaten.
    pub frightened_timer: u64,
    /// How long the current scheduled mode lasts; `None` once the schedule
    /// has run out.
    pub switch_state_interval: Option<u64>,
    /// The lengths of the scheduled modes to come.
    pub state_intervals: Seq<u64>,
    /// The scheduled mode.
    pub ghosts_state: GhostState,
    /// The number of ghosts eaten since the last power pellet.
    pub multiplier: usize,
    pub game_state: GameState,
}

impl GameView {
    /// The invariant of a game: the grid is the one the configuration asks
    /// for, everyone is on it, neither the lives nor the score are
    /// negative, a game that is over has no life left, the scheduled mode
    /// is chase or scatter, and the table of ghost scores reaches as far as
    /// the ghosts that can still be eaten.
    pub open spec fn wf(self) -> bool {
        &&& self.config.valid()
        &&& 0 <= self.pacman.lives
        &&& 0 <= self.pacman.score
        &&& self.game_state == GameState::GameOver ==> self.pacman.lives == 0
        &&& self.grid.wf()
        &&& self.grid.num_cols == self.config.grid_width
        &&& self.grid.num_rows == self.config.grid_height
        &&& self.grid.contains(self.pacman.pos)
        &&& forall|i: int| 0 <= i < self.ghosts.len() ==> self.grid.contains((#[trigger] self.ghosts[i]).pos)
        &&& self.ghosts_state.is_scheduled()
        &&& self.multiplier + frightened_count(self.ghosts) <= self.ghosts.len()
        &&& self.ghosts.len() <= self.config.eaten_ghosts_multipliers@.len()
    }

    /// What the `n`-th ghost eaten after a power pellet is worth, counting
    /// from zero; nothing beyond the end of the table.
    pub open spec fn ghost_points(self, n: usize) -> i32 {
        if n < self.config.eaten_ghosts_multipliers@.len() {
            self.config.eaten_ghosts_multipliers@[n as int]
        } else {
            0
        }
    }

    /// The game after the player looked at the tile it stands on. A pellet
    /// that has not been eaten is eaten. A power pellet that has not been
    /// eaten is eaten too, and then the fright begins: its timer starts
    /// anew, every ghost that is not on its way home is frightened, and the
    /// count of eaten ghosts starts at zero.
    pub open spec fn check_collision(self) -> GameView {
        let pos = self.pacman.pos;
        if self.pacman.has_eaten(pos) {
            self
        } else if self.grid.kind(pos) == Some(TileType::Pellet) {
            GameView { pacman: self.pacman.fed(PELLET_POINTS), ..self }
        } else if self.grid.kind(pos) == Some(TileType::PowerPellet) {
            GameView {
                pacman: self.pacman.fed(POWER_PELLET_POINTS),
                game_state: GameState::Frightened,
                frightened_timer: 0,
                ghosts: frightened(self.ghosts),
                multiplier: 0,
                ..self
            }
        } else {
            self
        }
    }

    /// The game after the player and the `i`-th ghost were held against
    /// each other. If they share a cell, a frightened ghost is eaten and
    /// scored, an eaten ghost passes through, and any other ghost costs a
    /// life, if one is left: the last life ends the game, any other sends
    /// it to rest. This is so whatever the game is doing: a frightened
    /// ghost is eaten in a game that is over, too.
    pub open spec fn collide_with(self, i: int) -> GameView {
        let who = self.ghosts[i];
        if who.pos != self.pacman.pos {
            self
        } else if who.state == GhostState::Frightened {
            GameView {
                ghosts: self.ghosts.update(i, in_state(who, GhostState::Eaten)),
                pacman: self.pacman.rewarded(self.ghost_points(self.multiplier)),
                multiplier: (self.multiplier + 1) as usize,
                ..self
            }
        } else if who.state != GhostState::Eaten {
            let pacman = self.pacman.hurt();
            if pacman.lives <= 0 {
                GameView { pacman, game_state: GameState::GameOver, ..self }
            } else {
                GameView { pacman, game_state: GameState::Restarting, restart_game_timer: 0, ..self }
            }
        } else {
            self
        }
    }

    /// The game after the player was held against the first `n` ghosts, one
    /// after the other.
    pub open spec fn collide_upto(self, n: nat) -> GameView
        decreases n,
    {
        if n == 0 {
            self
        } else {
            self.collide_upto((n - 1) as nat).collide_with(n - 1)
        }
    }

    /// The game after the player was held against every ghost.
    pub open spec fn check_ghosts_collision(self) -> GameView {
        self.collide_upto(self.ghosts.len())
    }

    /// Whether every pellet and power pellet of the grid has been eaten.
    pub open spec fn has_win(self) -> bool {
        forall|pos: (i32, i32)| #[trigger] self.grid.is_edible(pos) ==> self.pacman.has_eaten(pos)
    }

    /// Where `who` aims, if `wander` is the random cell drawn for it. A
    /// chasing ghost aims by its character, with Blinky at `blinky_pos`; an
    /// unknown character aims at the origin. A scattering ghost aims at its
    /// corner, a frightened one at the random cell, an eaten one at the
    /// ghost house.
    pub open spec fn ghost_target(self, who: GhostEntity, blinky_pos: (i32, i32), wander: (i32, i32)) -> (
        i32,
        i32,
    ) {
        match who.state {
            GhostState::Chase => match who.spec_identity() {
                Identity::Pinky => as_cell(spec_target_pinky(self.pacman.direction, self.pacman.pos)),
                Identity::Inky => as_cell(spec_target_inky(self.pacman.direction, self.pacman.pos, blinky_pos)),
                Identity::Blinky => self.pacman.pos,
                Identity::Clyde => spec_target_clyde(self.pacman.pos, who.pos, who.scatter_pos),
                Identity::Unknown => (0, 0),
            },
            GhostState::Scatter => who.scatter_pos,
            GhostState::Frightened => wander,
            GhostState::Eaten => self.config.ghosts_house_pos,
        }
    }

    /// Where Blinky stands, or the origin if Blinky is not in the game.
    pub open spec fn blinky_pos(self) -> (i32, i32) {
        match find_blinky(self.ghosts, 0) {
            Some(pos) => pos,
            None => (0, 0),
        }
    }

    /// `who` after its turn to move. An eaten ghost that has reached the
    /// ghost house takes up the scheduled mode and does not move; any other
    /// ghost takes one step towards its target.
    pub open spec fn ghost_moved(self, who: GhostEntity, wander: (i32, i32)) -> GhostEntity {
        if who.pos == self.config.ghosts_house_pos && who.state == GhostState::Eaten {
            in_state(who, self.ghosts_state)
        } else {
            who.moved(self.ghost_target(who, self.blinky_pos(), wander), self.grid)
        }
    }

    /// The game after every ghost had its turn to move, the `i`-th with the
    /// random cell `wander[i]`. All of them aim by where Blinky stood before
    /// any of them moved.
    pub open spec fn move_ghosts(self, wander: Seq<(i32, i32)>) -> GameView {
        GameView {
            ghosts: Seq::new(self.ghosts.len(), |i: int| self.ghost_moved(self.ghosts[i], wander_at(wander, i))),
            ..self
        }
    }

    /// Where the ghost `who` starts from.
    pub open spec fn home_of(self, who: GhostEntity) -> (i32, i32) {
        match who.spec_identity() {
            Identity::Blinky => self.config.blinky_initial_pos,
            Identity::Pinky => self.config.pinky_initial_pos,
            Identity::Inky => self.config.inky_initial_pos,
            Identity::Clyde => self.config.clyde_initial_pos,
            Identity::Unknown => (0, 0),
        }
    }

    /// The game after a rest: everyone is back where they started, the
    /// ghosts scatter, and the timers and the schedule start anew. The
    /// level, the score, the lives, the pellets eaten and the way everyone
    /// faces are kept.
    pub open spec fn restart_game(self) -> GameView {
        GameView {
            pacman: PacmanView { pos: self.config.pacman_initial_pos, ..self.pacman },
            ghosts: sent_home(self),
            pacman_timer: 0,
            ghost_timer: 0,
            state_timer: 0,
            switch_state_interval: Some((FIRST_MODE_SECONDS * TICKS_PER_SECOND) as u64),
            state_intervals: mode_schedule(),
            game_state: GameState::Playing,
            frightened_timer: 0,
            ghosts_state: GhostState::Scatter,
            multiplier: 0,
            ..self
        }
    }

    /// For how many ticks a power pellet frightens the ghosts.
    pub open spec fn frightened_ticks(self) -> int {
        spec_frightened_duration(self.level) * TICKS_PER_SECOND
    }

    /// The game once the fright, if there is one, had the chance to end:
    /// when its time is up, the frightened ghosts take up the scheduled
    /// mode, the count of eaten ghosts starts at zero, and play goes on.
    pub open spec fn settle_fright(self) -> GameView {
        if self.game_state == GameState::Frightened && self.frightened_timer >= self.frightened_ticks() {
            GameView {
                game_state: GameState::Playing,
                frightened_timer: 0,
                multiplier: 0,
                ghosts: calmed(self.ghosts, self.ghosts_state),
                ..self
            }
        } else {
            self
        }
    }

    /// The game after the player's turn: it moves, eats, is held against
    /// the ghosts, and if the game is not over and nothing is left to eat,
    /// the next level begins with a rest and no pellet eaten.
    pub open spec fn pacman_turn(self) -> GameView {
        let met = (GameView { pacman_timer: 0, pacman: self.pacman.moved(self.grid), ..self }).check_collision()
            .check_ghosts_collision();
        if met.game_state != GameState::GameOver && met.has_win() {
            GameView {
                pacman: PacmanView { eaten_pellets: Seq::empty(), ..met.pacman },
                level: next_level(met.level),
                game_state: GameState::Restarting,
                restart_game_timer: 0,
                ..met
            }
        } else {
            met
        }
    }

    /// The game after the ghosts' turn: they move, and the player is held
    /// against them.
    pub open spec fn ghosts_turn(self, wander: Seq<(i32, i32)>) -> GameView {
        (GameView { ghost_timer: 0, ..self }).move_ghosts(wander).check_ghosts_collision()
    }

    /// The game once the schedule had the chance to switch: when the time
    /// of the current mode is up, the next length is taken from the
    /// schedule, the scheduled mode changes from chase to scatter or back,
    /// and the ghosts that are neither frightened nor eaten follow. Once
    /// the schedule has run out, the mode stays.
    pub open spec fn advance_schedule(self) -> GameView {
        match self.switch_state_interval {
            Some(interval) => if self.state_timer >= interval {
                let mode = self.ghosts_state.toggled();
                GameView {
                    switch_state_interval: if self.state_intervals.len() > 0 {
                        Some(self.state_intervals[0])
                    } else {
                        None
                    },
                    state_intervals: if self.state_intervals.len() > 0 {
                        self.state_intervals.subrange(1, self.state_intervals.len() as int)
                    } else {
                        self.state_intervals
                    },
                    ghosts_state: mode,
                    ghosts: switched(self.ghosts, mode),
                    state_timer: 0,
                    ..self
                }
            } else {
                self
            },
            None => self,
        }
    }

    /// The time between two steps of the player.
    pub open spec fn pacman_interval(self) -> u64 {
        spec_speed_for_level(self.config.base_pacman_speed, self.level, self.config.base_pacman_min_speed)
    }

    /// The time between two steps of the ghosts.
    pub open spec fn ghost_interval(self) -> u64 {
        spec_speed_for_level(self.config.base_ghost_speed, self.level, self.config.base_ghost_min_speed)
    }

    /// The game `dt` ticks later, if `wander` holds the random cells drawn
    /// for the ghosts.
    ///
    /// A resting game only rests: when the rest is over, it restarts. A
    /// paused or finished game stays as it is. Otherwise the four timers
    /// advance; then, in this order, the fright may end, the player has its
    /// turn if its time has come, the ghosts have theirs, and the schedule
    /// may switch. The two intervals are those of the level at which the
    /// update began, and each timer fires at most once.
    pub open spec fn update(self, dt: u64, wander: Seq<(i32, i32)>) -> GameView {
        if self.game_state == GameState::Restarting {
            let rested = GameView { restart_game_timer: ticked(self.restart_game_timer, dt), ..self };
            if rested.restart_game_timer >= self.config.resume_game_interval {
                rested.restart_game()
            } else {
                rested
            }
        } else if self.game_state == GameState::Paused || self.game_state == GameState::GameOver {
            self
        } else {
            let timed = GameView {
                pacman_timer: ticked(self.pacman_timer, dt),
                ghost_timer: ticked(self.ghost_timer, dt),
                state_timer: ticked(self.state_timer, dt),
                frightened_timer: ticked(self.frightened_timer, dt),
                ..self
            };
            let settled = timed.settle_fright();
            let after_pacman = if settled.pacman_timer >= self.pacman_interval() {
                settled.pacman_turn()
            } else {
                settled
            };
            let after_ghosts = if after_pacman.ghost_timer >= self.ghost_interval() {
                after_pacman.ghosts_turn(wander)
            } else {
                after_pacman
            };
            after_ghosts.advance_schedule()
        }
    }

    /// Whether this is the game that `config` sets up on the map `map`:
    /// level one, the player and the four ghosts at their starting cells,
    /// the ghosts scattering for the first seven seconds of the schedule.
    pub open spec fn is_initial(self, map: Seq<char>, config: GameConfig) -> bool {
        &&& self.config == config
        &&& self.grid == loaded_view(map, config.cell_size, config.grid_width, config.grid_height)
        &&& self.pacman == (PacmanView {
            name: PACMAN_NAME@,
            pos: config.pacman_initial_pos,
            direction: Direction::Left,
            expected_direction: None,
            lives: config.pacman_initial_lives,
            score: config.pacman_initial_score,
            eaten_pellets: Seq::empty(),
        })
        &&& self.ghosts.len() == GHOST_COUNT
        &&& is_fresh_ghost(self.ghosts[0], BLINKY_NAME@, config.blinky_initial_pos, config.top_right_corner)
        &&& is_fresh_ghost(self.ghosts[1], PINKY_NAME@, config.pinky_initial_pos, config.top_left_corner)
        &&& is_fresh_ghost(self.ghosts[2], CLYDE_NAME@, config.clyde_initial_pos, config.bottom_left_corner)
        &&& is_fresh_ghost(self.ghosts[3], INKY_NAME@, config.inky_initial_pos, config.bottom_right_corner)
        &&& self.level == 1
        &&& self.pacman_timer == 0
        &&& self.ghost_timer == 0
        &&& self.state_timer == 0
        &&& self.restart_game_timer == 0
        &&& self.frightened_timer == 0
        &&& self.switch_state_interval == Some((FIRST_MODE_SECONDS * TICKS_PER_SECOND) as u64)
        &&& self.state_intervals == mode_schedule()
        &&& self.ghosts_state == GhostState::Scatter
        &&& self.multiplier == 0
        &&& self.game_state == GameState::Playing
    }
}

/// The ghosts back where they start from, scattering.
pub open spec fn sent_home(game: GameView) -> Seq<GhostEntity> {
    Seq::new(
        game.ghosts.len(),
        |i: int| GhostEntity { pos: game.home_of(game.ghosts[i]), state: GhostState::Scatter, ..game.ghosts[i] },
    )
}

/// There are no more frightened ghosts than ghosts.
pub proof fn lemma_count_bounded(ghosts: Seq<GhostEntity>)
    ensures
        frightened_count(ghosts) <= ghosts.len(),
    decreases ghosts.len(),
{
    if ghosts.len() > 0 {
        lemma_count_bounded(ghosts.drop_last());
    }
}

/// Two rows of ghosts that are frightened at the same places hold equally
/// many frightened ghosts.
pub proof fn lemma_count_same(a: Seq<GhostEntity>, b: Seq<GhostEntity>)
    requires
        a.len() == b.len(),
        forall|i: int|
            0 <= i < a.len() ==> ((#[trigger] a[i]).state == GhostState::Frightened) == (b[i].state
                == GhostState::Frightened),
    ensures
        frightened_count(a) == frightened_count(b),
    decreases a.len(),
{
    if a.len() > 0 {
        assert(a.last() == a[a.len() - 1]);
        assert forall|i: int| 0 <= i < a.drop_last().len() implies ((#[trigger] a.drop_last()[i]).state
            == GhostState::Frightened) == (b.drop_last()[i].state == GhostState::Frightened) by {
            assert(a.drop_last()[i] == a[i]);
        }
        lemma_count_same(a.drop_last(), b.drop_last());
    }
}

/// Where no ghost is frightened, the count is zero.
pub proof fn lemma_count_none(ghosts: Seq<GhostEntity>)
    requires
        forall|i: int| 0 <= i < ghosts.len() ==> (#[trigger] ghosts[i]).state != GhostState::Frightened,
    ensures
        frightened_count(ghosts) == 0,
    decreases ghosts.len(),
{
    if ghosts.len() > 0 {
        assert(ghosts.last() == ghosts[ghosts.len() - 1]);
        assert forall|i: int| 0 <= i < ghosts.drop_last().len() implies (#[trigger] ghosts.drop_last()[i]).state
            != GhostState::Frightened by {
            assert(ghosts.drop_last()[i] == ghosts[i]);
        }
        lemma_count_none(ghosts.drop_last());
    }
}

/// Replacing one ghost changes the count by what the new ghost adds and the
/// old one took along.
pub proof fn lemma_count_update(ghosts: Seq<GhostEntity>, i: int, who: GhostEntity)
    requires
        0 <= i < ghosts.len(),
    ensures
        frightened_count(ghosts.update(i, who)) + (if ghosts[i].state == GhostState::Frightened {
            1nat
        } else {
            0nat
        }) == frightened_count(ghosts) + (if who.state == GhostState::Frightened {
            1nat
        } else {
            0nat
        }),
    decreases ghosts.len(),
{
    let changed = ghosts.update(i, who);
    if i == ghosts.len() - 1 {
        assert(changed.drop_last() =~= ghosts.drop_last());
    } else {
        assert(changed.drop_last() =~= ghosts.drop_last().update(i, who));
        lemma_count_update(ghosts.drop_last(), i, who);
    }
}

/// Looking at the tile under the player keeps the invariant of the game.
pub proof fn lemma_check_collision_keeps_wf(game: GameView)
    requires
        game.wf(),
    ensures
        game.check_collision().wf(),
{
    lemma_count_bounded(frightened(game.ghosts));
}

/// Holding the player against one ghost keeps the invariant of the game,
/// the grid, the configuration, the number of ghosts and the place of
/// everyone.
pub proof fn lemma_collide_with_keeps_wf(game: GameView, i: int)
    requires
        game.wf(),
        0 <= i < game.ghosts.len(),
    ensures
        game.collide_with(i).wf(),
        game.collide_with(i).ghosts.len() == game.ghosts.len(),
        game.collide_with(i).grid == game.grid,
        game.collide_with(i).config == game.config,
        game.ghosts[i].pos == game.pacman.pos && game.ghosts[i].state == GhostState::Frightened
            ==> game.multiplier < game.config.eaten_ghosts_multipliers@.len(),
{
    let who = game.ghosts[i];
    if who.pos == game.pacman.pos && who.state == GhostState::Frightened {
        lemma_count_update(game.ghosts, i, in_state(who, GhostState::Eaten));
    }
}

/// Holding the player against the first `n` ghosts keeps the invariant of
/// the game.
pub proof fn lemma_collide_upto_keeps_wf(game: GameView, n: nat)
    requires
        game.wf(),
        n <= game.ghosts.len(),
    ensures
        game.collide_upto(n).wf(),
        game.collide_upto(n).ghosts.len() == game.ghosts.len(),
        game.collide_upto(n).grid == game.grid,
        game.collide_upto(n).config == game.config,
    decreases n,
{
    if n > 0 {
        lemma_collide_upto_keeps_wf(game, (n - 1) as nat);
        lemma_collide_with_keeps_wf(game.collide_upto((n - 1) as nat), n - 1);
    }
}

/// A ghost of the grid is still on the grid after its turn to move, and it
/// is frightened after the turn if and only if it was before.
pub proof fn lemma_ghost_moved_stays(game: GameView, who: GhostEntity, wander: (i32, i32))
    requires
        game.wf(),
        game.grid.contains(who.pos),
    ensures
        game.grid.contains(game.ghost_moved(who, wander).pos),
        (game.ghost_moved(who, wander).state == GhostState::Frightened) == (who.state == GhostState::Frightened),
{
    let target = game.ghost_target(who, game.blinky_pos(), wander);
    match chosen_direction(who.pos, who.direction, target, game.grid) {
        Some(d) => {
            lemma_wrap_step_is_modular(who.pos, d, game.grid.num_cols, game.grid.num_rows);
        },
        None => {},
    }
}

/// The ghosts' moves keep the invariant of the game: no ghost leaves the
/// grid, and none becomes frightened.
pub proof fn lemma_move_ghosts_keeps_wf(game: GameView, wander: Seq<(i32, i32)>)
    requires
        game.wf(),
    ensures
        game.move_ghosts(wander).wf(),
{
    let after = game.move_ghosts(wander);
    assert forall|i: int| 0 <= i < after.ghosts.len() implies {
        &&& after.grid.contains((#[trigger] after.ghosts[i]).pos)
        &&& (after.ghosts[i].state == GhostState::Frightened) == (game.ghosts[i].state == GhostState::Frightened)
    } by {
        lemma_ghost_moved_stays(game, game.ghosts[i], wander_at(wander, i));
    }
    lemma_count_same(after.ghosts, game.ghosts);
}

/// A restart keeps the invariant of the game.
pub proof fn lemma_restart_keeps_wf(game: GameView)
    requires
        game.wf(),
    ensures
        game.restart_game().wf(),
{
    lemma_count_none(game.restart_game().ghosts);
}

/// The end of a fright keeps the invariant of the game.
pub proof fn lemma_settle_fright_keeps_wf(game: GameView)
    requires
        game.wf(),
    ensures
        game.settle_fright().wf(),
{
    lemma_count_none(calmed(game.ghosts, game.ghosts_state));
}

/// A switch of the schedule keeps the invariant of the game.
pub proof fn lemma_advance_schedule_keeps_wf(game: GameView)
    requires
        game.wf(),
    ensures
        game.advance_schedule().wf(),
{
    lemma_count_same(switched(game.ghosts, game.ghosts_state.toggled()), game.ghosts);
}

/// The player's turn keeps the invariant of the game: the player stays on
/// the grid.
pub proof fn lemma_pacman_turn_keeps_wf(game: GameView)
    requires
        game.wf(),
    ensures
        game.pacman_turn().wf(),
{
    let facing = game.pacman.turned(game.grid);
    lemma_pacman_step_wraps_columns_clamps_rows(game.pacman.pos, facing, game.grid.num_cols, game.grid.num_rows);
    let stepped = GameView { pacman_timer: 0, pacman: game.pacman.moved(game.grid), ..game };
    assert(stepped.wf());
    lemma_check_collision_keeps_wf(stepped);
    lemma_collide_upto_keeps_wf(stepped.check_collision(), stepped.check_collision().ghosts.len());
}

/// The ghosts' turn keeps the invariant of the game.
pub proof fn lemma_ghosts_turn_keeps_wf(game: GameView, wander: Seq<(i32, i32)>)
    requires
        game.wf(),
    ensures
        game.ghosts_turn(wander).wf(),
{
    let timed = GameView { ghost_timer: 0, ..game };
    assert(timed.wf());
    lemma_move_ghosts_keeps_wf(timed, wander);
    lemma_collide_upto_keeps_wf(timed.move_ghosts(wander), timed.move_ghosts(wander).ghosts.len());
}

/// Whatever time passes and whatever cells are drawn, a game that keeps
/// its invariant before an update keeps it after: the player and the
/// ghosts stay on the grid, and the scheduled mode stays chase or scatter.
pub proof fn lemma_update_keeps_wf(game: GameView, dt: u64, wander: Seq<(i32, i32)>)
    requires
        game.wf(),
    ensures
        game.update(dt, wander).wf(),
{
    if game.game_state == GameState::Restarting {
        let rested = GameView { restart_game_timer: ticked(game.restart_game_timer, dt), ..game };
        assert(rested.wf());
        lemma_restart_keeps_wf(rested);
    } else if game.game_state == GameState::Paused || game.game_state == GameState::GameOver {
    } else {
        let timed = GameView {
            pacman_timer: ticked(game.pacman_timer, dt),
            ghost_timer: ticked(game.ghost_timer, dt),
            state_timer: ticked(game.state_timer, dt),
            frightened_timer: ticked(game.frightened_timer, dt),
            ..game
        };
        assert(timed.wf());
        lemma_settle_fright_keeps_wf(timed);
        let settled = timed.settle_fright();
        lemma_pacman_turn_keeps_wf(settled);
        let after_pacman = if settled.pacman_timer >= game.pacman_interval() {
            settled.pacman_turn()
        } else {
            settled
        };
        lemma_ghosts_turn_keeps_wf(after_pacman, wander);
        let after_ghosts = if after_pacman.ghost_timer >= game.ghost_interval() {
            after_pacman.ghosts_turn(wander)
        } else {
            after_pacman
        };
        lemma_advance_schedule_keeps_wf(after_ghosts);
    }
}

/// Looking twice at the tile under the player is the same as looking once:
/// what was eaten at the first look is not eaten, nor scored, again.
pub proof fn lemma_pellet_is_eaten_once(game: GameView)
    ensures
        game.check_collision().check_collision() == game.check_collision(),
        game.check_collision().check_collision().pacman.score == game.check_collision().pacman.score,
{
    let pos = game.pacman.pos;
    let eaten = game.pacman.eaten_pellets;
    assert(eaten.push(pos)[eaten.len() as int] == pos);
}

/// Eating a power pellet frightens every ghost that is not on its way
/// home, whatever it was doing, leaves the others as they are, and sets the
/// count of eaten ghosts to zero, whatever it was. The pellet is entered
/// among the eaten ones and is worth fifty points, as far as the score can
/// hold them.
pub proof fn lemma_power_pellet_frightens(game: GameView)
    requires
        game.grid.kind(game.pacman.pos) == Some(TileType::PowerPellet),
        !game.pacman.has_eaten(game.pacman.pos),
    ensures
        game.check_collision().multiplier == 0,
        game.check_collision().pacman.eaten_pellets == game.pacman.eaten_pellets.push(game.pacman.pos),
        game.check_collision().pacman.has_eaten(game.pacman.pos),
        game.check_collision().pacman.score == clamp_i32(game.pacman.score + POWER_PELLET_POINTS),
        game.pacman.score + POWER_PELLET_POINTS <= i32::MAX ==> game.check_collision().pacman.score
            == game.pacman.score + POWER_PELLET_POINTS,
        game.check_collision().game_state == GameState::Frightened,
        game.check_collision().frightened_timer == 0,
        game.check_collision().ghosts.len() == game.ghosts.len(),
        forall|i: int|
            0 <= i < game.ghosts.len() ==> (#[trigger] game.check_collision().ghosts[i]) == in_state(
                game.ghosts[i],
                if game.ghosts[i].state == GhostState::Eaten {
                    GhostState::Eaten
                } else {
                    GhostState::Frightened
                },
            ),
{
    let eaten = game.pacman.eaten_pellets;
    assert(eaten.push(game.pacman.pos)[eaten.len() as int] == game.pacman.pos);
}

/// A finished game stays finished: no update changes anything in it.
pub proof fn lemma_game_over_is_final(game: GameView, dt: u64, wander: Seq<(i32, i32)>)
    requires
        game.game_state == GameState::GameOver,
    ensures
        game.update(dt, wander) == game,
{
}

/// A ghost that was eaten, or that stands on another cell than the player,
/// changes nothing when the two are held against each other; nor does a
/// ghost that is not frightened, once the game is over and no life is
/// left.
pub proof fn lemma_harmless_ghost_changes_nothing(game: GameView, i: int)
    requires
        ({
            ||| game.ghosts[i].state == GhostState::Eaten
            ||| game.ghosts[i].pos != game.pacman.pos
            ||| game.ghosts[i].state != GhostState::Frightened && game.game_state == GameState::GameOver
                && game.pacman.lives <= 0
        }),
    ensures
        game.collide_with(i) == game,
{
}

/// A frightened ghost on the player's cell is eaten, whatever the game is
/// doing: it is worth the entry of the table that the count of eaten ghosts
/// points at, as far as the score can hold it, and the count goes up by
/// one. The lives, the state of the game and the other ghosts stay as they
/// are.
pub proof fn lemma_frightened_ghost_is_eaten(game: GameView, i: int)
    requires
        0 <= i < game.ghosts.len(),
        game.ghosts[i].pos == game.pacman.pos,
        game.ghosts[i].state == GhostState::Frightened,
        game.multiplier < game.config.eaten_ghosts_multipliers@.len(),
        game.multiplier < usize::MAX,
    ensures
        game.collide_with(i).ghosts == game.ghosts.update(i, in_state(game.ghosts[i], GhostState::Eaten)),
        game.collide_with(i).multiplier == game.multiplier + 1,
        game.collide_with(i).pacman.score == clamp_i32(
            game.pacman.score + game.config.eaten_ghosts_multipliers@[game.multiplier as int],
        ),
        game.pacman.score + game.config.eaten_ghosts_multipliers@[game.multiplier as int] <= i32::MAX
            && game.pacman.score + game.config.eaten_ghosts_multipliers@[game.multiplier as int] >= i32::MIN
            ==> game.collide_with(i).pacman.score == game.pacman.score
            + game.config.eaten_ghosts_multipliers@[game.multiplier as int],
        game.collide_with(i).pacman.lives == game.pacman.lives,
        game.collide_with(i).game_state == game.game_state,
{
}

/// A ghost that is neither frightened nor eaten takes the last life of a
/// player on its cell and ends the game; the score, the count of eaten
/// ghosts and the ghosts stay as they are.
pub proof fn lemma_live_ghost_takes_the_last_life(game: GameView, i: int)
    requires
        game.pacman.lives == 1,
        game.ghosts[i].pos == game.pacman.pos,
        game.ghosts[i].state == GhostState::Chase || game.ghosts[i].state == GhostState::Scatter,
    ensures
        game.collide_with(i).pacman.lives == 0,
        game.collide_with(i).game_state == GameState::GameOver,
        game.collide_with(i).pacman.score == game.pacman.score,
        game.collide_with(i).multiplier == game.multiplier,
        game.collide_with(i).ghosts == game.ghosts,
{
}

/// Where each of the first `n` ghosts was eaten or stands on another cell
/// than the player, holding the player against them changes nothing.
pub proof fn lemma_harmless_ghosts_change_nothing(game: GameView, n: nat)
    requires
        forall|i: int|
            0 <= i < n ==> (#[trigger] game.ghosts[i]).state == GhostState::Eaten || game.ghosts[i].pos
                != game.pacman.pos,
    ensures
        game.collide_upto(n) == game,
    decreases n,
{
    if n > 0 {
        lemma_harmless_ghosts_change_nothing(game, (n - 1) as nat);
        assert(game.ghosts[n - 1].state == GhostState::Eaten || game.ghosts[n - 1].pos != game.pacman.pos);
    }
}

/// Holding the player against the first `n` ghosts never adds a life, and
/// never takes one that is not there: a player with no life less than none
/// before has no life less than none after. Either it costs no life and
/// leaves the state of the game as it is, or the game is over when no life
/// is left and rests otherwise.
pub proof fn lemma_lost_life_ends_or_rests(game: GameView, n: nat)
    ensures
        game.collide_upto(n).pacman.lives <= game.pacman.lives,
        game.pacman.lives >= 0 ==> game.collide_upto(n).pacman.lives >= 0,
        game.collide_upto(n).level == game.level,
        game.collide_upto(n).game_state == state_after_loss(game.collide_upto(n).pacman.lives) || (game.collide_upto(
            n,
        ).pacman.lives == game.pacman.lives && game.collide_upto(n).game_state == game.game_state),
    decreases n,
{
    if n > 0 {
        lemma_lost_life_ends_or_rests(game, (n - 1) as nat);
    }
}

/// An update never adds a life, and one in which a life is lost leaves the
/// game over if no life is left, and at rest otherwise. A game with lives
/// to lose never has fewer than none.
pub proof fn lemma_last_life_ends_the_game(game: GameView, dt: u64, wander: Seq<(i32, i32)>)
    ensures
        game.update(dt, wander).pacman.lives <= game.pacman.lives,
        game.pacman.lives >= 0 ==> game.update(dt, wander).pacman.lives >= 0,
        game.update(dt, wander).pacman.lives < game.pacman.lives ==> game.update(dt, wander).game_state
            == state_after_loss(game.update(dt, wander).pacman.lives),
{
    if game.game_state == GameState::Restarting || game.game_state == GameState::Paused || game.game_state
        == GameState::GameOver {
    } else {
        let timed = GameView {
            pacman_timer: ticked(game.pacman_timer, dt),
            ghost_timer: ticked(game.ghost_timer, dt),
            state_timer: ticked(game.state_timer, dt),
            frightened_timer: ticked(game.frightened_timer, dt),
            ..game
        };
        let settled = timed.settle_fright();
        let eaten = (GameView { pacman_timer: 0, pacman: settled.pacman.moved(settled.grid), ..settled }).check_collision();
        lemma_lost_life_ends_or_rests(eaten, eaten.ghosts.len());
        let after_pacman = if settled.pacman_timer >= game.pacman_interval() {
            settled.pacman_turn()
        } else {
            settled
        };
        let moved = (GameView { ghost_timer: 0, ..after_pacman }).move_ghosts(wander);
        lemma_lost_life_ends_or_rests(moved, moved.ghosts.len());
    }
}

} // verus!

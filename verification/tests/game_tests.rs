use pacman::config::{GameConfig, MAX_GRID_SIDE};
use pacman::enums::{Direction, GhostState};
use pacman::game::{Game, GameError, GameState};
use pacman::grid::MapError;

const NEVER: u64 = u64::MAX / 2;

const SEALED: &str = "#########\n# # # # #\n#########";
const OPEN: &str = "#######\n#     #\n#     #\n#     #\n#######";

fn config(width: i32, height: i32) -> GameConfig {
    GameConfig {
        grid_width: width,
        grid_height: height,
        cell_size: 10,
        pacman_initial_pos: (1, 1),
        pacman_initial_lives: 3,
        pacman_initial_score: 0,
        blinky_initial_pos: (1, 1),
        pinky_initial_pos: (1, 1),
        inky_initial_pos: (1, 1),
        clyde_initial_pos: (1, 1),
        top_left_corner: (0, 0),
        top_right_corner: (width - 1, 0),
        bottom_left_corner: (0, height - 1),
        bottom_right_corner: (width - 1, height - 1),
        ghosts_house_pos: (0, 0),
        base_pacman_speed: 200_000,
        base_pacman_min_speed: 100_000,
        base_ghost_speed: 250_000,
        base_ghost_min_speed: 120_000,
        resume_game_interval: 2_000_000,
        eaten_ghosts_multipliers: vec![200, 400, 800, 1600],
    }
}

fn sealed_config() -> GameConfig {
    let mut c = config(9, 3);
    c.blinky_initial_pos = (3, 1);
    c.pinky_initial_pos = (5, 1);
    c.inky_initial_pos = (7, 1);
    c.clyde_initial_pos = (7, 1);
    c
}

fn still_ghosts(mut c: GameConfig) -> GameConfig {
    c.base_ghost_speed = NEVER;
    c.base_ghost_min_speed = NEVER;
    c
}

fn still_pacman(mut c: GameConfig) -> GameConfig {
    c.base_pacman_speed = NEVER;
    c.base_pacman_min_speed = NEVER;
    c
}

fn corridor_config(pacman: (i32, i32), blinky: (i32, i32)) -> GameConfig {
    let mut c = still_ghosts(config(7, 3));
    c.pacman_initial_pos = pacman;
    c.blinky_initial_pos = blinky;
    c.pinky_initial_pos = (5, 1);
    c.inky_initial_pos = (5, 1);
    c.clyde_initial_pos = (5, 1);
    c
}

fn states(game: &Game) -> Vec<GhostState> {
    game.get_ghosts().iter().map(|g| g.state).collect()
}

fn places(game: &Game) -> Vec<(i32, i32)> {
    game.get_ghosts().iter().map(|g| g.pos).collect()
}

#[test]
fn new_game_starts_at_level_one() {
    let game = Game::new(SEALED, sealed_config()).unwrap();
    assert_eq!(game.get_level(), 1);
    assert_eq!(game.get_game_state(), GameState::Playing);
    assert_eq!(game.get_ghosts_state(), GhostState::Scatter);
    assert_eq!(game.get_multiplier(), 0);
    let p = game.get_pacman();
    assert_eq!(p.name, "Pacman");
    assert_eq!(p.pos, (1, 1));
    assert_eq!(p.direction, Direction::Left);
    assert_eq!(p.expected_direction, None);
    assert_eq!(p.get_lives(), 3);
    assert_eq!(p.get_score(), 0);
    assert!(p.eaten_pellets.is_empty());
    let names: Vec<&str> = game.get_ghosts().iter().map(|g| g.name.as_str()).collect();
    assert_eq!(names, vec!["Blinky", "Pinky", "Clyde", "Inky"]);
    assert_eq!(places(&game), vec![(3, 1), (5, 1), (7, 1), (7, 1)]);
    let corners: Vec<(i32, i32)> = game.get_ghosts().iter().map(|g| g.scatter_pos).collect();
    assert_eq!(corners, vec![(8, 0), (0, 0), (0, 2), (8, 2)]);
    assert_eq!(states(&game), vec![GhostState::Scatter; 4]);
    assert!(game.get_ghosts().iter().all(|g| g.direction == Direction::Left));
    assert_eq!(game.get_grid().get_num_cols(), 9);
    assert_eq!(game.get_grid().get_num_rows(), 3);
    assert_eq!(game.get_grid().get_dim_width(), 90);
    assert_eq!(game.get_config().cell_size, 10);
}

#[test]
fn unplayable_configurations_are_refused() {
    let mut c = sealed_config();
    c.grid_width = 0;
    assert_eq!(Game::new(SEALED, c).err(), Some(GameError::BadConfig));
    let mut c = sealed_config();
    c.grid_height = MAX_GRID_SIDE + 1;
    assert_eq!(Game::new(SEALED, c).err(), Some(GameError::BadConfig));
    let mut c = sealed_config();
    c.pacman_initial_pos = (9, 1);
    assert_eq!(Game::new(SEALED, c).err(), Some(GameError::BadConfig));
    let mut c = sealed_config();
    c.inky_initial_pos = (3, -1);
    assert_eq!(Game::new(SEALED, c).err(), Some(GameError::BadConfig));
    let mut c = sealed_config();
    c.eaten_ghosts_multipliers = vec![200, 400, 800];
    assert_eq!(Game::new(SEALED, c).err(), Some(GameError::BadConfig));
    assert!(!{
        let mut c = sealed_config();
        c.clyde_initial_pos = (0, 3);
        c.is_valid()
    });
    assert!(sealed_config().is_valid());
}

#[test]
fn unloadable_maps_are_refused() {
    assert_eq!(
        Game::new("#########\n# # # # #", sealed_config()).err(),
        Some(GameError::BadMap(MapError::MissingRows))
    );
    assert_eq!(
        Game::new("#########\n# # # #\n#########", sealed_config()).err(),
        Some(GameError::BadMap(MapError::ShortRow))
    );
    let mut c = sealed_config();
    c.cell_size = i32::MAX;
    assert_eq!(Game::new(SEALED, c).err(), Some(GameError::BadMap(MapError::Dimensions)));
}

#[test]
fn fright_lasts_seven_seconds_less_the_level() {
    let mut game = Game::new(SEALED, sealed_config()).unwrap();
    assert_eq!(game.get_frightened_duration(), 7 - 1);
    let mut seen = vec![(game.get_level(), game.get_frightened_duration())];
    for _ in 0..8 {
        game.update_with(1_000_000, &vec![]);
        assert_eq!(game.get_game_state(), GameState::Restarting);
        seen.push((game.get_level(), game.get_frightened_duration()));
        game.update_with(2_000_000, &vec![]);
        assert_eq!(game.get_game_state(), GameState::Playing);
    }
    assert_eq!(seen, vec![(1, 6), (2, 5), (3, 4), (4, 3), (5, 2), (6, 1), (7, 0), (8, 0), (9, 0)]);
}

#[test]
fn win_is_true_with_no_pellet_left_and_false_with_one() {
    let game = Game::new(SEALED, sealed_config()).unwrap();
    assert!(game.has_win());
    let mut c = corridor_config((1, 1), (5, 1));
    c.base_pacman_speed = NEVER;
    c.base_pacman_min_speed = NEVER;
    let mut game = Game::new("#######\n#.  # #\n#######", c).unwrap();
    assert!(!game.has_win());
    game.check_collision();
    assert!(game.has_win());
    assert_eq!(game.get_pacman().get_score(), 10);
    let game = Game::new("#######\n#   #o#\n#######", corridor_config((1, 1), (5, 1))).unwrap();
    assert!(!game.has_win());
}

#[test]
fn a_pellet_is_eaten_once() {
    let mut game = Game::new("#######\n#.  #.#\n#######", corridor_config((1, 1), (5, 1))).unwrap();
    game.check_collision();
    assert_eq!(game.get_pacman().get_score(), 10);
    assert_eq!(game.get_pacman().eaten_pellets, vec![(1, 1)]);
    game.check_collision();
    game.check_collision();
    assert_eq!(game.get_pacman().get_score(), 10);
    assert_eq!(game.get_pacman().eaten_pellets, vec![(1, 1)]);
    assert_eq!(game.get_game_state(), GameState::Playing);
}

#[test]
fn floor_holds_nothing_to_eat() {
    let mut game = Game::new("#######\n#   #.#\n#######", corridor_config((1, 1), (5, 1))).unwrap();
    game.check_collision();
    assert_eq!(game.get_pacman().get_score(), 0);
    assert!(game.get_pacman().eaten_pellets.is_empty());
}

#[test]
fn player_moves_when_its_interval_has_passed() {
    let mut game = Game::new("#######\n#   #.#\n#######", corridor_config((3, 1), (5, 1))).unwrap();
    game.update_with(193_999, &vec![]);
    assert_eq!(game.get_pacman().pos, (3, 1));
    game.update_with(1, &vec![]);
    assert_eq!(game.get_pacman().pos, (2, 1));
    game.update_with(194_000, &vec![]);
    assert_eq!(game.get_pacman().pos, (1, 1));
    game.update_with(194_000, &vec![]);
    assert_eq!(game.get_pacman().pos, (1, 1));
}

#[test]
fn a_long_tick_moves_the_player_once() {
    let mut game = Game::new("#######\n#   #.#\n#######", corridor_config((3, 1), (5, 1))).unwrap();
    game.update_with(1_000_000, &vec![]);
    assert_eq!(game.get_pacman().pos, (2, 1));
}

#[test]
fn power_pellet_frightens_the_ghosts() {
    let mut game = Game::new("#######\n#o  #.#\n#######", corridor_config((2, 1), (5, 1))).unwrap();
    game.update_with(200_000, &vec![]);
    assert_eq!(game.get_pacman().pos, (1, 1));
    assert_eq!(game.get_pacman().get_score(), 50);
    assert_eq!(game.get_game_state(), GameState::Frightened);
    assert_eq!(states(&game), vec![GhostState::Frightened; 4]);
    assert_eq!(game.get_multiplier(), 0);
    assert_eq!(game.get_level(), 1);
    game.update_with(5_999_999, &vec![]);
    assert_eq!(game.get_game_state(), GameState::Frightened);
    assert_eq!(states(&game), vec![GhostState::Frightened; 4]);
    game.update_with(1, &vec![]);
    assert_eq!(game.get_game_state(), GameState::Playing);
    assert_eq!(states(&game), vec![GhostState::Scatter; 4]);
    assert_eq!(game.get_pacman().get_score(), 50);
}

#[test]
fn frightened_ghost_is_eaten_and_stays_eaten_at_the_next_power_pellet() {
    let mut game = Game::new("#######\n#oo #.#\n#######", corridor_config((3, 1), (2, 1))).unwrap();
    game.update_with(200_000, &vec![]);
    assert_eq!(game.get_pacman().pos, (2, 1));
    assert_eq!(game.get_pacman().get_score(), 250);
    assert_eq!(game.get_multiplier(), 1);
    assert_eq!(game.get_game_state(), GameState::Frightened);
    assert_eq!(
        states(&game),
        vec![GhostState::Eaten, GhostState::Frightened, GhostState::Frightened, GhostState::Frightened]
    );
    assert_eq!(game.get_pacman().get_lives(), 3);
    game.update_with(200_000, &vec![]);
    assert_eq!(game.get_pacman().pos, (1, 1));
    assert_eq!(game.get_pacman().get_score(), 300);
    assert_eq!(game.get_multiplier(), 0);
    assert_eq!(
        states(&game),
        vec![GhostState::Eaten, GhostState::Frightened, GhostState::Frightened, GhostState::Frightened]
    );
}

#[test]
fn each_ghost_eaten_in_one_fright_is_worth_the_next_entry() {
    let mut c = corridor_config((3, 1), (2, 1));
    c.pinky_initial_pos = (2, 1);
    c.inky_initial_pos = (2, 1);
    c.clyde_initial_pos = (2, 1);
    let mut game = Game::new("#######\n#oo #.#\n#######", c).unwrap();
    game.update_with(200_000, &vec![]);
    assert_eq!(game.get_pacman().get_score(), 50 + 200 + 400 + 800 + 1600);
    assert_eq!(game.get_multiplier(), 4);
    assert_eq!(states(&game), vec![GhostState::Eaten; 4]);
    assert_eq!(game.get_pacman().get_lives(), 3);
    game.check_ghosts_collision();
    assert_eq!(game.get_pacman().get_score(), 3050);
    assert_eq!(game.get_pacman().get_lives(), 3);
}

#[test]
fn eaten_ghost_goes_home_and_takes_up_the_scheduled_mode() {
    let mut c = corridor_config((3, 1), (2, 1));
    c.ghosts_house_pos = (1, 1);
    let mut game = Game::new("#######\n#oo #.#\n#######", c).unwrap();
    game.update_with(200_000, &vec![]);
    assert_eq!(game.get_ghosts()[0].state, GhostState::Eaten);
    game.move_ghosts(&vec![]);
    assert_eq!(game.get_ghosts()[0].pos, (1, 1));
    assert_eq!(game.get_ghosts()[0].state, GhostState::Eaten);
    assert_eq!(game.get_ghosts()[0].direction, Direction::Left);
    game.move_ghosts(&vec![]);
    assert_eq!(game.get_ghosts()[0].pos, (1, 1));
    assert_eq!(game.get_ghosts()[0].state, GhostState::Scatter);
    assert_eq!(game.get_ghosts()[1].state, GhostState::Frightened);
}

#[test]
fn a_ghost_costs_a_life_and_the_game_rests() {
    let mut game = Game::new("#######\n#   #.#\n#######", corridor_config((2, 1), (1, 1))).unwrap();
    game.update_with(200_000, &vec![]);
    assert_eq!(game.get_pacman().pos, (1, 1));
    assert_eq!(game.get_pacman().get_lives(), 2);
    assert_eq!(game.get_game_state(), GameState::Restarting);
    game.update_with(1_999_999, &vec![]);
    assert_eq!(game.get_game_state(), GameState::Restarting);
    assert_eq!(game.get_pacman().pos, (1, 1));
    game.update_with(1, &vec![]);
    assert_eq!(game.get_game_state(), GameState::Playing);
    assert_eq!(game.get_pacman().pos, (2, 1));
    assert_eq!(game.get_pacman().get_lives(), 2);
    assert_eq!(game.get_level(), 1);
    assert_eq!(places(&game), vec![(1, 1), (5, 1), (5, 1), (5, 1)]);
}

#[test]
fn two_ghosts_on_one_cell_cost_two_lives() {
    let mut c = corridor_config((2, 1), (1, 1));
    c.pinky_initial_pos = (1, 1);
    let mut game = Game::new("#######\n#   #.#\n#######", c).unwrap();
    game.update_with(200_000, &vec![]);
    assert_eq!(game.get_pacman().get_lives(), 1);
    assert_eq!(game.get_game_state(), GameState::Restarting);
}

#[test]
fn the_last_life_ends_the_game_for_good() {
    let mut c = corridor_config((2, 1), (1, 1));
    c.pacman_initial_lives = 2;
    let mut game = Game::new("#######\n#   #.#\n#######", c).unwrap();
    game.update_with(200_000, &vec![]);
    assert_eq!(game.get_pacman().get_lives(), 1);
    game.update_with(2_000_000, &vec![]);
    assert_eq!(game.get_game_state(), GameState::Playing);
    game.update_with(200_000, &vec![]);
    assert_eq!(game.get_pacman().get_lives(), 0);
    assert_eq!(game.get_game_state(), GameState::GameOver);
    for dt in [0, 1, 200_000, 2_000_000, 60_000_000, u64::MAX] {
        game.update_with(dt, &vec![(3, 1); 4]);
        game.update(dt);
        assert_eq!(game.get_game_state(), GameState::GameOver);
        assert_eq!(game.get_pacman().pos, (1, 1));
        assert_eq!(game.get_pacman().get_lives(), 0);
        assert_eq!(game.get_pacman().get_score(), 0);
        assert_eq!(game.get_level(), 1);
        assert_eq!(game.get_ghosts_state(), GhostState::Scatter);
        assert_eq!(places(&game), vec![(1, 1), (5, 1), (5, 1), (5, 1)]);
    }
}

#[test]
fn clearing_the_map_begins_the_next_level() {
    let mut game = Game::new("#######\n#.  # #\n#######", corridor_config((2, 1), (5, 1))).unwrap();
    game.update_with(200_000, &vec![]);
    assert_eq!(game.get_pacman().get_score(), 10);
    assert_eq!(game.get_level(), 2);
    assert_eq!(game.get_game_state(), GameState::Restarting);
    assert!(game.get_pacman().eaten_pellets.is_empty());
    assert!(!game.has_win());
    game.update_with(2_000_000, &vec![]);
    assert_eq!(game.get_game_state(), GameState::Playing);
    assert_eq!(game.get_pacman().pos, (2, 1));
    assert_eq!(game.get_pacman().get_score(), 10);
    game.update_with(187_999, &vec![]);
    assert_eq!(game.get_pacman().pos, (2, 1));
    game.update_with(1, &vec![]);
    assert_eq!(game.get_pacman().get_score(), 20);
    assert_eq!(game.get_level(), 3);
}

#[test]
fn schedule_alternates_until_it_runs_out() {
    let mut game = Game::new(SEALED, still_pacman(still_ghosts(sealed_config()))).unwrap();
    game.update_with(6_999_999, &vec![]);
    assert_eq!(game.get_ghosts_state(), GhostState::Scatter);
    game.update_with(1, &vec![]);
    assert_eq!(game.get_ghosts_state(), GhostState::Chase);
    assert_eq!(states(&game), vec![GhostState::Chase; 4]);
    game.update_with(19_999_999, &vec![]);
    assert_eq!(game.get_ghosts_state(), GhostState::Chase);
    game.update_with(1, &vec![]);
    assert_eq!(game.get_ghosts_state(), GhostState::Scatter);
    assert_eq!(states(&game), vec![GhostState::Scatter; 4]);
    game.update_with(7_000_000, &vec![]);
    assert_eq!(game.get_ghosts_state(), GhostState::Chase);
    game.update_with(20_000_000, &vec![]);
    assert_eq!(game.get_ghosts_state(), GhostState::Scatter);
    game.update_with(5_000_000, &vec![]);
    assert_eq!(game.get_ghosts_state(), GhostState::Chase);
    game.update_with(1_000_000, &vec![]);
    assert_eq!(game.get_ghosts_state(), GhostState::Scatter);
    for _ in 0..5 {
        game.update_with(100_000_000, &vec![]);
        assert_eq!(game.get_ghosts_state(), GhostState::Scatter);
        assert_eq!(states(&game), vec![GhostState::Scatter; 4]);
    }
    assert_eq!(game.get_game_state(), GameState::Playing);
}

#[test]
fn an_overshot_timer_fires_once() {
    let mut game = Game::new(SEALED, still_pacman(still_ghosts(sealed_config()))).unwrap();
    game.update_with(100_000_000, &vec![]);
    assert_eq!(game.get_ghosts_state(), GhostState::Chase);
    game.update_with(19_999_999, &vec![]);
    assert_eq!(game.get_ghosts_state(), GhostState::Chase);
    game.update_with(1, &vec![]);
    assert_eq!(game.get_ghosts_state(), GhostState::Scatter);
}

#[test]
fn frightened_ghosts_ignore_the_schedule() {
    let mut c = corridor_config((2, 1), (5, 1));
    c.base_pacman_speed = 2_000_000;
    let mut game = Game::new("#######\n#o  #.#\n#######", c).unwrap();
    game.update_with(2_000_000, &vec![]);
    assert_eq!(game.get_game_state(), GameState::Frightened);
    game.update_with(5_000_000, &vec![]);
    assert_eq!(game.get_ghosts_state(), GhostState::Chase);
    assert_eq!(states(&game), vec![GhostState::Frightened; 4]);
    assert_eq!(game.get_game_state(), GameState::Frightened);
    game.update_with(1_000_000, &vec![]);
    assert_eq!(game.get_game_state(), GameState::Playing);
    assert_eq!(states(&game), vec![GhostState::Chase; 4]);
}

#[test]
fn chasing_ghosts_aim_by_their_character() {
    let mut c = still_pacman(still_ghosts(config(7, 5)));
    c.blinky_initial_pos = (5, 3);
    c.pinky_initial_pos = (5, 1);
    c.clyde_initial_pos = (3, 1);
    c.inky_initial_pos = (3, 3);
    let mut game = Game::new(OPEN, c).unwrap();
    game.update_with(7_000_000, &vec![]);
    assert_eq!(states(&game), vec![GhostState::Chase; 4]);
    assert_eq!(places(&game), vec![(5, 3), (5, 1), (3, 1), (3, 3)]);
    game.move_ghosts(&vec![]);
    assert_eq!(places(&game), vec![(5, 2), (4, 1), (3, 2), (3, 2)]);
    let facing: Vec<Direction> = game.get_ghosts().iter().map(|g| g.direction).collect();
    assert_eq!(facing, vec![Direction::Up, Direction::Left, Direction::Down, Direction::Up]);
}

#[test]
fn scattering_ghosts_aim_at_their_corners() {
    let mut c = still_pacman(still_ghosts(config(7, 5)));
    c.blinky_initial_pos = (3, 2);
    c.pinky_initial_pos = (3, 2);
    c.clyde_initial_pos = (3, 2);
    c.inky_initial_pos = (3, 2);
    let mut game = Game::new(OPEN, c).unwrap();
    game.move_ghosts(&vec![]);
    assert_eq!(places(&game), vec![(3, 1), (3, 1), (3, 3), (3, 3)]);
}

#[test]
fn shy_pursuer_turns_away_at_distance_eight() {
    let map = "############\n#          #\n#          #\n#          #\n############";
    let mut c = still_pacman(still_ghosts(config(12, 5)));
    c.pacman_initial_pos = (1, 2);
    c.bottom_left_corner = (9, 4);
    c.clyde_initial_pos = (9, 2);
    let mut game = Game::new(map, c).unwrap();
    game.update_with(7_000_000, &vec![]);
    game.move_ghosts(&vec![]);
    assert_eq!(game.get_ghosts()[2].pos, (9, 3));
    let mut c = still_pacman(still_ghosts(config(12, 5)));
    c.pacman_initial_pos = (1, 2);
    c.bottom_left_corner = (9, 4);
    c.clyde_initial_pos = (10, 2);
    let mut game = Game::new(map, c).unwrap();
    game.update_with(7_000_000, &vec![]);
    game.move_ghosts(&vec![]);
    assert_eq!(game.get_ghosts()[2].pos, (9, 2));
}

#[test]
fn frightened_ghosts_flee_towards_the_cells_drawn() {
    let map = "#######\n#o    #\n#     #\n#  .  #\n#######";
    let mut c = still_ghosts(config(7, 5));
    c.pacman_initial_pos = (2, 1);
    c.blinky_initial_pos = (5, 3);
    c.pinky_initial_pos = (5, 3);
    c.clyde_initial_pos = (5, 3);
    c.inky_initial_pos = (5, 3);
    let mut game = Game::new(map, c).unwrap();
    game.update_with(200_000, &vec![]);
    assert_eq!(states(&game), vec![GhostState::Frightened; 4]);
    game.move_ghosts(&vec![(5, 1), (1, 3)]);
    assert_eq!(places(&game), vec![(5, 2), (4, 3), (5, 2), (5, 2)]);
}

#[test]
fn ghosts_move_when_their_interval_has_passed() {
    let mut c = still_pacman(config(7, 5));
    c.blinky_initial_pos = (3, 2);
    c.pinky_initial_pos = (3, 2);
    c.clyde_initial_pos = (3, 2);
    c.inky_initial_pos = (3, 2);
    let mut game = Game::new(OPEN, c).unwrap();
    game.update_with(242_499, &vec![]);
    assert_eq!(places(&game), vec![(3, 2); 4]);
    game.update_with(1, &vec![]);
    assert_eq!(places(&game), vec![(3, 1), (3, 1), (3, 3), (3, 3)]);
}

#[test]
fn restart_puts_everyone_back() {
    let mut c = still_pacman(still_ghosts(config(7, 5)));
    c.blinky_initial_pos = (5, 3);
    c.pinky_initial_pos = (5, 1);
    c.clyde_initial_pos = (3, 1);
    c.inky_initial_pos = (3, 3);
    let mut game = Game::new(OPEN, c).unwrap();
    game.update_with(7_000_000, &vec![]);
    game.move_ghosts(&vec![]);
    game.handle_input(Direction::Down);
    game.restart_game();
    assert_eq!(places(&game), vec![(5, 3), (5, 1), (3, 1), (3, 3)]);
    assert_eq!(states(&game), vec![GhostState::Scatter; 4]);
    assert_eq!(game.get_ghosts_state(), GhostState::Scatter);
    assert_eq!(game.get_game_state(), GameState::Playing);
    assert_eq!(game.get_pacman().pos, (1, 1));
    assert_eq!(game.get_pacman().expected_direction, Some(Direction::Down));
    assert_eq!(game.get_level(), 1);
    game.update_with(6_999_999, &vec![]);
    assert_eq!(game.get_ghosts_state(), GhostState::Scatter);
    game.update_with(1, &vec![]);
    assert_eq!(game.get_ghosts_state(), GhostState::Chase);
}

#[test]
fn input_buffers_a_turn() {
    let mut c = still_ghosts(config(7, 5));
    c.pacman_initial_pos = (3, 1);
    c.blinky_initial_pos = (5, 3);
    c.pinky_initial_pos = (5, 3);
    c.clyde_initial_pos = (5, 3);
    c.inky_initial_pos = (5, 3);
    let mut game = Game::new("#######\n#     #\n#.    #\n#     #\n#######", c).unwrap();
    game.handle_input(Direction::Up);
    assert_eq!(game.get_pacman().expected_direction, Some(Direction::Up));
    game.update_with(200_000, &vec![]);
    assert_eq!(game.get_pacman().pos, (2, 1));
    assert_eq!(game.get_pacman().direction, Direction::Left);
    game.handle_input(Direction::Down);
    game.update_with(200_000, &vec![]);
    assert_eq!(game.get_pacman().pos, (2, 2));
    assert_eq!(game.get_pacman().direction, Direction::Down);
}

#[test]
fn drawn_cells_lie_on_the_grid() {
    let mut c = config(7, 5);
    c.blinky_initial_pos = (5, 3);
    let game = Game::new(OPEN, c).unwrap();
    for _ in 0..200 {
        let wander = game.draw_wander_targets();
        assert_eq!(wander.len(), 4);
        for cell in wander {
            assert!(0 <= cell.0 && cell.0 < 7 && 0 <= cell.1 && cell.1 < 5);
        }
    }
}

#[test]
fn everyone_stays_on_the_grid_whatever_is_drawn() {
    let map = "       \n .o.o. \n       \n .o.o. \n       ";
    let mut c = config(7, 5);
    c.pacman_initial_pos = (3, 2);
    c.pacman_initial_lives = 1000;
    c.blinky_initial_pos = (0, 0);
    c.pinky_initial_pos = (6, 0);
    c.clyde_initial_pos = (0, 4);
    c.inky_initial_pos = (6, 4);
    c.ghosts_house_pos = (3, 0);
    let mut game = Game::new(map, c).unwrap();
    let turns = [Direction::Up, Direction::Right, Direction::Down, Direction::Left];
    for step in 0..4000 {
        game.handle_input(turns[(step / 7) % 4]);
        game.update(130_000);
        let p = game.get_pacman().pos;
        assert!(0 <= p.0 && p.0 < 7 && 0 <= p.1 && p.1 < 5);
        for g in game.get_ghosts() {
            assert!(0 <= g.pos.0 && g.pos.0 < 7 && 0 <= g.pos.1 && g.pos.1 < 5);
        }
        assert!(game.get_multiplier() <= 4);
        let mode = game.get_ghosts_state();
        assert!(mode == GhostState::Chase || mode == GhostState::Scatter);
    }
    assert!(game.get_pacman().get_score() > 0);
}

#[test]
fn the_last_life_is_lost_once_however_many_ghosts_wait() {
    let mut c = corridor_config((2, 1), (1, 1));
    c.pinky_initial_pos = (1, 1);
    c.clyde_initial_pos = (1, 1);
    c.pacman_initial_lives = 1;
    let mut game = Game::new("#######\n#   #.#\n#######", c).unwrap();
    game.update_with(200_000, &vec![]);
    assert_eq!(game.get_pacman().pos, (1, 1));
    assert_eq!(game.get_pacman().get_lives(), 0);
    assert_eq!(game.get_game_state(), GameState::GameOver);
    game.check_ghosts_collision();
    assert_eq!(game.get_pacman().get_lives(), 0);
    assert_eq!(game.get_game_state(), GameState::GameOver);
}

#[test]
fn a_finished_game_loses_no_more_lives() {
    let mut c = corridor_config((2, 1), (1, 1));
    c.pacman_initial_lives = 1;
    let mut game = Game::new("#######\n#   #.#\n#######", c).unwrap();
    game.update_with(200_000, &vec![]);
    assert_eq!(game.get_game_state(), GameState::GameOver);
    game.check_collision();
    game.check_ghosts_collision();
    assert_eq!(game.get_pacman().get_score(), 0);
    assert_eq!(game.get_multiplier(), 0);
    assert_eq!(states(&game), vec![GhostState::Scatter; 4]);
}

#[test]
fn the_last_life_lost_on_the_last_pellet_ends_the_game() {
    let mut c = corridor_config((2, 1), (1, 1));
    c.pacman_initial_lives = 1;
    let mut game = Game::new("#######\n#.  # #\n#######", c).unwrap();
    game.update_with(200_000, &vec![]);
    assert_eq!(game.get_pacman().pos, (1, 1));
    assert_eq!(game.get_pacman().get_score(), 10);
    assert_eq!(game.get_pacman().get_lives(), 0);
    assert_eq!(game.get_game_state(), GameState::GameOver);
    assert_eq!(game.get_level(), 1);
    assert_eq!(game.get_pacman().eaten_pellets, vec![(1, 1)]);
    assert!(game.has_win());
    game.update_with(2_000_000, &vec![]);
    game.update_with(200_000, &vec![]);
    assert_eq!(game.get_game_state(), GameState::GameOver);
    assert_eq!(game.get_level(), 1);
    assert_eq!(game.get_pacman().get_lives(), 0);
}

#[test]
fn a_life_lost_on_the_last_pellet_with_lives_to_spare_begins_the_next_level() {
    let mut game = Game::new("#######\n#.  # #\n#######", corridor_config((2, 1), (1, 1))).unwrap();
    game.update_with(200_000, &vec![]);
    assert_eq!(game.get_pacman().get_lives(), 2);
    assert_eq!(game.get_game_state(), GameState::Restarting);
    assert_eq!(game.get_level(), 2);
}

#[test]
fn a_game_without_lives_is_over_at_the_first_ghost() {
    let mut c = corridor_config((2, 1), (1, 1));
    c.pacman_initial_lives = 0;
    let mut game = Game::new("#######\n#   #.#\n#######", c).unwrap();
    assert_eq!(game.get_game_state(), GameState::Playing);
    game.update_with(200_000, &vec![]);
    assert_eq!(game.get_pacman().get_lives(), 0);
    assert_eq!(game.get_game_state(), GameState::GameOver);
}

#[test]
fn negative_lives_scores_and_ghost_points_are_refused() {
    let mut c = sealed_config();
    c.pacman_initial_lives = -1;
    assert_eq!(Game::new(SEALED, c).err(), Some(GameError::BadConfig));
    let mut c = sealed_config();
    c.pacman_initial_score = -10;
    assert_eq!(Game::new(SEALED, c).err(), Some(GameError::BadConfig));
    let mut c = sealed_config();
    c.eaten_ghosts_multipliers = vec![200, 400, 800, 1600, -1];
    assert!(!c.is_valid());
    assert_eq!(Game::new(SEALED, c).err(), Some(GameError::BadConfig));
    let mut c = sealed_config();
    c.eaten_ghosts_multipliers = vec![0, 0, 0, 0];
    c.pacman_initial_lives = 0;
    c.pacman_initial_score = 0;
    assert!(c.is_valid());
}

#[test]
fn power_pellet_resets_the_count_of_eaten_ghosts() {
    let mut c = corridor_config((3, 1), (2, 1));
    c.pinky_initial_pos = (2, 1);
    c.pacman_initial_score = 1000;
    let mut game = Game::new("#######\n#oo #.#\n#######", c).unwrap();
    game.update_with(200_000, &vec![]);
    assert_eq!(game.get_multiplier(), 2);
    assert_eq!(game.get_pacman().get_score(), 1000 + 50 + 200 + 400);
    game.update_with(200_000, &vec![]);
    assert_eq!(game.get_multiplier(), 0);
    assert_eq!(game.get_pacman().get_score(), 1650 + 50);
    assert!(game.get_pacman().has_eaten((1, 1)));
    assert!(game.get_pacman().has_eaten((2, 1)));
    assert_eq!(
        states(&game),
        vec![GhostState::Eaten, GhostState::Eaten, GhostState::Frightened, GhostState::Frightened]
    );
}

#[test]
fn a_frightened_ghost_is_eaten_in_a_finished_game() {
    let mut c = still_ghosts(config(10, 3));
    c.pacman_initial_pos = (2, 1);
    c.pacman_initial_lives = 1;
    c.blinky_initial_pos = (1, 1);
    c.pinky_initial_pos = (4, 1);
    c.inky_initial_pos = (8, 1);
    c.clyde_initial_pos = (8, 1);
    c.ghosts_house_pos = (1, 1);
    let mut game = Game::new("##########\n#o     #.#\n##########", c).unwrap();
    game.update_with(200_000, &vec![]);
    assert_eq!(game.get_pacman().pos, (1, 1));
    assert_eq!(game.get_pacman().get_score(), 250);
    assert_eq!(game.get_multiplier(), 1);
    assert_eq!(
        states(&game),
        vec![GhostState::Eaten, GhostState::Frightened, GhostState::Frightened, GhostState::Frightened]
    );
    let towards_the_player = vec![(0, 0), (1, 1)];
    game.move_ghosts(&towards_the_player);
    assert_eq!(game.get_ghosts()[0].state, GhostState::Scatter);
    assert_eq!(places(&game), vec![(1, 1), (3, 1), (8, 1), (8, 1)]);
    game.check_ghosts_collision();
    assert_eq!(game.get_pacman().get_lives(), 0);
    assert_eq!(game.get_game_state(), GameState::GameOver);
    assert_eq!(game.get_pacman().get_score(), 250);
    game.move_ghosts(&towards_the_player);
    game.move_ghosts(&towards_the_player);
    assert_eq!(places(&game), vec![(1, 1), (1, 1), (8, 1), (8, 1)]);
    assert_eq!(game.get_ghosts()[1].state, GhostState::Frightened);
    game.check_ghosts_collision();
    assert_eq!(game.get_ghosts()[1].state, GhostState::Eaten);
    assert_eq!(game.get_pacman().get_score(), 250 + 400);
    assert_eq!(game.get_multiplier(), 2);
    assert_eq!(game.get_pacman().get_lives(), 0);
    assert_eq!(game.get_game_state(), GameState::GameOver);
    assert_eq!(game.get_ghosts()[0].state, GhostState::Scatter);
}

#[test]
fn one_ghost_takes_the_last_life_and_nothing_else() {
    let mut c = corridor_config((2, 1), (1, 1));
    c.pacman_initial_lives = 1;
    c.pacman_initial_score = 70;
    let mut game = Game::new("#######\n#   #.#\n#######", c).unwrap();
    game.update_with(200_000, &vec![]);
    assert_eq!(game.get_pacman().get_lives(), 0);
    assert_eq!(game.get_game_state(), GameState::GameOver);
    assert_eq!(game.get_pacman().get_score(), 70);
    assert_eq!(game.get_multiplier(), 0);
    assert_eq!(states(&game), vec![GhostState::Scatter; 4]);
}

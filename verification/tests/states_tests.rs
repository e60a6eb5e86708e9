use pacman::grid::Grid;
use pacman::pathfinding::AStar;
use pacman::states::{ChaseState, EatenState, FrightenedState, ScatterState, State};

const OPEN: &str = "       \n       \n       \n       \n       ";

#[test]
fn chasing_ghost_makes_the_first_move_of_a_path() {
    let grid = Grid::new(OPEN, 1, 7, 5).unwrap();
    let mut search = AStar::new(7, 5);
    let mut pos = (5, 3);
    ChaseState::new().move_around("Blinky", &mut pos, (1, 1), &mut search, &grid);
    assert_eq!(pos, (4, 2));
    ChaseState::new().move_around("Blinky", &mut pos, (1, 1), &mut search, &grid);
    ChaseState::new().move_around("Blinky", &mut pos, (1, 1), &mut search, &grid);
    ChaseState::new().move_around("Blinky", &mut pos, (1, 1), &mut search, &grid);
    assert_eq!(pos, (1, 1));
}

#[test]
fn chasing_ghost_that_caught_the_player_stays() {
    let grid = Grid::new(OPEN, 1, 7, 5).unwrap();
    let mut search = AStar::new(7, 5);
    let mut pos = (1, 1);
    ChaseState::new().move_around("Blinky", &mut pos, (1, 1), &mut search, &grid);
    assert_eq!(pos, (1, 1));
}

#[test]
fn chasing_ghost_stays_when_the_player_is_off_the_board() {
    let grid = Grid::new(OPEN, 1, 7, 5).unwrap();
    let mut search = AStar::new(7, 5);
    let mut pos = (2, 2);
    ChaseState::new().move_around("Blinky", &mut pos, (7, 5), &mut search, &grid);
    assert_eq!(pos, (2, 2));
}

#[test]
fn the_other_modes_leave_the_ghost_where_it_is() {
    let grid = Grid::new(OPEN, 1, 7, 5).unwrap();
    let mut search = AStar::new(7, 5);
    let mut pos = (5, 3);
    ScatterState::new().move_around("Pinky", &mut pos, (1, 1), &mut search, &grid);
    assert_eq!(pos, (5, 3));
    FrightenedState::new().move_around("Inky", &mut pos, (1, 1), &mut search, &grid);
    assert_eq!(pos, (5, 3));
    EatenState::new().move_around("Clyde", &mut pos, (1, 1), &mut search, &grid);
    assert_eq!(pos, (5, 3));
    assert!(search.get_closed_list().is_empty());
    assert_eq!(search.get_goal(), None);
}

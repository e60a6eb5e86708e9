use pacman::enums::{Direction, Fruit};
use pacman::grid::Grid;
use pacman::player::{add_points, Pacman};

fn pacman_at(pos: (i32, i32), direction: Direction) -> Pacman {
    Pacman::new(String::from("Pacman"), pos, 3, direction, 0)
}

#[test]
fn new_player_has_eaten_nothing() {
    let p = Pacman::new(String::from("Pacman"), (4, 5), 3, Direction::Right, 70);
    assert_eq!(p.name, "Pacman");
    assert_eq!(p.pos, (4, 5));
    assert_eq!(p.direction, Direction::Right);
    assert_eq!(p.expected_direction, None);
    assert_eq!(p.get_lives(), 3);
    assert_eq!(p.get_score(), 70);
    assert!(p.eaten_pellets.is_empty());
}

#[test]
fn tunnel_row_wraps_to_the_other_side() {
    let grid = Grid::new("###\n   \n###", 1, 3, 3).unwrap();
    let mut p = pacman_at((0, 1), Direction::Left);
    p.move_around(&grid);
    assert_eq!(p.pos, (2, 1));
    assert_eq!(p.direction, Direction::Left);
    let mut p = pacman_at((2, 1), Direction::Right);
    p.move_around(&grid);
    assert_eq!(p.pos, (0, 1));
}

#[test]
fn walls_and_the_ghost_door_block_the_player() {
    let grid = Grid::new("###\n# =\n###", 1, 3, 3).unwrap();
    for direction in [Direction::Up, Direction::Down, Direction::Left, Direction::Right] {
        let mut p = pacman_at((1, 1), direction);
        assert!(!p.can_move(direction, &grid));
        p.move_around(&grid);
        assert_eq!(p.pos, (1, 1));
        assert_eq!(p.direction, direction);
    }
}

#[test]
fn buffered_turn_waits_until_it_can_be_taken() {
    let grid = Grid::new("#####\n#   #\n## ##\n#####", 1, 5, 4).unwrap();
    let mut p = pacman_at((3, 1), Direction::Left);
    p.expected_direction = Some(Direction::Down);
    p.move_around(&grid);
    assert_eq!(p.pos, (2, 1));
    assert_eq!(p.direction, Direction::Left);
    assert_eq!(p.expected_direction, Some(Direction::Down));
    p.move_around(&grid);
    assert_eq!(p.pos, (2, 2));
    assert_eq!(p.direction, Direction::Down);
    assert_eq!(p.expected_direction, Some(Direction::Down));
    p.move_around(&grid);
    assert_eq!(p.pos, (2, 2));
    assert_eq!(p.direction, Direction::Down);
}

#[test]
fn rows_clamp_and_never_wrap() {
    let grid = Grid::new("   \n   \n   ", 1, 3, 3).unwrap();
    let mut p = pacman_at((1, 0), Direction::Up);
    p.move_around(&grid);
    assert_eq!(p.pos, (1, 0));
    let mut p = pacman_at((1, 2), Direction::Down);
    p.move_around(&grid);
    assert_eq!(p.pos, (1, 2));
    let mut p = pacman_at((1, 1), Direction::Up);
    p.move_around(&grid);
    assert_eq!(p.pos, (1, 0));
    let mut p = pacman_at((1, 1), Direction::Down);
    p.move_around(&grid);
    assert_eq!(p.pos, (1, 2));
}

#[test]
fn update_position_steps_whatever_lies_there() {
    let mut p = pacman_at((0, 0), Direction::Left);
    p.update_position(3, 3);
    assert_eq!(p.pos, (2, 0));
    p.direction = Direction::Right;
    p.update_position(3, 3);
    assert_eq!(p.pos, (0, 0));
    p.direction = Direction::Up;
    p.update_position(3, 3);
    assert_eq!(p.pos, (0, 0));
    p.direction = Direction::Down;
    p.update_position(3, 3);
    assert_eq!(p.pos, (0, 1));
    p.update_position(3, 3);
    assert_eq!(p.pos, (0, 2));
    p.update_position(3, 3);
    assert_eq!(p.pos, (0, 2));
}

#[test]
fn column_is_always_the_step_modulo_the_width() {
    let (w, h) = (4, 3);
    for x in 0..w {
        for y in 0..h {
            let mut p = pacman_at((x, y), Direction::Left);
            p.update_position(w, h);
            assert_eq!(p.pos, ((x - 1).rem_euclid(w), y));
            let mut p = pacman_at((x, y), Direction::Right);
            p.update_position(w, h);
            assert_eq!(p.pos, ((x + 1).rem_euclid(w), y));
            let mut p = pacman_at((x, y), Direction::Up);
            p.update_position(w, h);
            assert_eq!(p.pos, (x, (y - 1).clamp(0, h - 1)));
            let mut p = pacman_at((x, y), Direction::Down);
            p.update_position(w, h);
            assert_eq!(p.pos, (x, (y + 1).clamp(0, h - 1)));
        }
    }
}

#[test]
fn pellets_score_ten_and_power_pellets_fifty() {
    let mut p = pacman_at((2, 3), Direction::Left);
    p.eat_pellet();
    assert_eq!(p.get_score(), 10);
    assert_eq!(p.eaten_pellets, vec![(2, 3)]);
    assert!(p.has_eaten((2, 3)));
    assert!(!p.has_eaten((3, 2)));
    p.pos = (4, 4);
    p.eat_power_pellet();
    assert_eq!(p.get_score(), 60);
    assert_eq!(p.eaten_pellets, vec![(2, 3), (4, 4)]);
}

#[test]
fn ghosts_score_by_the_table() {
    let table = vec![200, 400, 800, 1600];
    let mut p = pacman_at((0, 0), Direction::Left);
    p.eat_ghost(0, &table);
    assert_eq!(p.get_score(), 200);
    p.eat_ghost(2, &table);
    assert_eq!(p.get_score(), 1000);
    p.eat_ghost(3, &table);
    assert_eq!(p.get_score(), 2600);
}

#[test]
fn fruit_scores_by_kind() {
    let kinds = [
        (Fruit::Cherry, 100),
        (Fruit::Strawberry, 300),
        (Fruit::Orange, 500),
        (Fruit::Apple, 700),
        (Fruit::Melon, 1000),
        (Fruit::Galaxian, 2000),
        (Fruit::Bell, 3000),
        (Fruit::Key, 5000),
    ];
    for (fruit, points) in kinds {
        let mut p = pacman_at((0, 0), Direction::Left);
        p.eat_fruit(fruit);
        assert_eq!(p.get_score(), points);
    }
}

#[test]
fn losing_a_life_takes_one() {
    let mut p = pacman_at((0, 0), Direction::Left);
    p.lose_life();
    assert_eq!(p.get_lives(), 2);
    p.lose_life();
    p.lose_life();
    assert_eq!(p.get_lives(), 0);
}

#[test]
fn a_player_without_lives_has_none_to_lose() {
    let mut p = pacman_at((0, 0), Direction::Left);
    p.lives = 0;
    p.lose_life();
    assert_eq!(p.get_lives(), 0);
    p.lives = -3;
    p.lose_life();
    assert_eq!(p.get_lives(), -3);
}

#[test]
fn score_and_lives_stop_at_the_ends_of_the_range() {
    let mut p = Pacman::new(String::from("Pacman"), (0, 0), i32::MIN, Direction::Left, i32::MAX - 5);
    p.eat_pellet();
    assert_eq!(p.get_score(), i32::MAX);
    p.lose_life();
    assert_eq!(p.get_lives(), i32::MIN);
    assert_eq!(add_points(5, 7), 12);
    assert_eq!(add_points(i32::MIN, -1), i32::MIN);
    assert_eq!(add_points(i32::MAX, 1), i32::MAX);
}

#[test]
fn pixel_position_scales_with_the_cell() {
    let p = pacman_at((3, 7), Direction::Left);
    assert_eq!(p.get_pixels_x(20), 60);
    assert_eq!(p.get_pixels_y(20), 140);
}

#[test]
fn player_does_not_look_round_the_top_and_the_bottom_edge() {
    let grid = Grid::new("   \n   \n   ", 1, 3, 3).unwrap();
    let top = pacman_at((1, 0), Direction::Right);
    assert!(!top.can_move(Direction::Up, &grid));
    assert!(top.can_move(Direction::Down, &grid));
    assert!(top.can_move(Direction::Left, &grid));
    assert!(top.can_move(Direction::Right, &grid));
    let bottom = pacman_at((1, 2), Direction::Right);
    assert!(!bottom.can_move(Direction::Down, &grid));
    assert!(bottom.can_move(Direction::Up, &grid));
    let corner = pacman_at((0, 0), Direction::Left);
    assert!(corner.can_move(Direction::Left, &grid));
    assert!(!corner.can_move(Direction::Up, &grid));
    let far = pacman_at((2, 2), Direction::Right);
    assert!(far.can_move(Direction::Right, &grid));
    assert!(!far.can_move(Direction::Down, &grid));
}

#[test]
fn a_turn_off_the_grid_is_not_taken() {
    let grid = Grid::new("   \n   \n   ", 1, 3, 3).unwrap();
    let mut p = pacman_at((1, 0), Direction::Right);
    p.expected_direction = Some(Direction::Up);
    p.move_around(&grid);
    assert_eq!(p.direction, Direction::Right);
    assert_eq!(p.pos, (2, 0));
    p.move_around(&grid);
    assert_eq!(p.direction, Direction::Right);
    assert_eq!(p.pos, (0, 0));
    let mut p = pacman_at((1, 2), Direction::Left);
    p.expected_direction = Some(Direction::Down);
    p.move_around(&grid);
    assert_eq!(p.direction, Direction::Left);
    assert_eq!(p.pos, (0, 2));
    let mut p = pacman_at((1, 1), Direction::Left);
    p.expected_direction = Some(Direction::Up);
    p.move_around(&grid);
    assert_eq!(p.direction, Direction::Up);
    assert_eq!(p.pos, (1, 0));
    p.move_around(&grid);
    assert_eq!(p.direction, Direction::Up);
    assert_eq!(p.pos, (1, 0));
}

#[test]
fn player_off_the_grid_finds_nothing_to_enter_above_or_below() {
    let grid = Grid::new("   \n   \n   ", 1, 3, 3).unwrap();
    let above = pacman_at((1, i32::MIN), Direction::Up);
    assert!(!above.can_move(Direction::Up, &grid));
    assert!(!above.can_move(Direction::Down, &grid));
    let below = pacman_at((1, i32::MAX), Direction::Down);
    assert!(!below.can_move(Direction::Down, &grid));
    assert!(!below.can_move(Direction::Up, &grid));
    let just_above = pacman_at((1, -1), Direction::Down);
    assert!(just_above.can_move(Direction::Down, &grid));
}

use pacman::enums::Direction;
use pacman::utils::{
    check_bounds, find_neighbors, get_speed_for_level, manhattan_distance, step_wrapped, TICKS_PER_SECOND,
};

#[test]
fn manhattan_distance_adds_both_axes() {
    assert_eq!(manhattan_distance((0, 0), (3, -4)), 7);
    assert_eq!(manhattan_distance((3, -4), (0, 0)), 7);
    assert_eq!(manhattan_distance((5, 5), (5, 5)), 0);
    assert_eq!(manhattan_distance((-2, 7), (4, 1)), 12);
}

#[test]
fn manhattan_distance_is_exact_at_the_ends_of_the_range() {
    assert_eq!(manhattan_distance((i32::MIN, i32::MIN), (i32::MAX, i32::MAX)), 8_589_934_590);
    assert_eq!(manhattan_distance((i32::MAX, 0), (i32::MIN, 0)), 4_294_967_295);
}

#[test]
fn bounds_are_half_open() {
    assert!(check_bounds((0, 0), 3, 2));
    assert!(check_bounds((2, 1), 3, 2));
    assert!(!check_bounds((3, 1), 3, 2));
    assert!(!check_bounds((2, 2), 3, 2));
    assert!(!check_bounds((-1, 0), 3, 2));
    assert!(!check_bounds((0, -1), 3, 2));
    assert!(!check_bounds((0, 0), 0, 0));
}

#[test]
fn toroidal_step_wraps_on_both_axes() {
    assert_eq!(step_wrapped((0, 1), Direction::Left, 3, 3), (2, 1));
    assert_eq!(step_wrapped((2, 1), Direction::Right, 3, 3), (0, 1));
    assert_eq!(step_wrapped((1, 0), Direction::Up, 3, 3), (1, 2));
    assert_eq!(step_wrapped((1, 2), Direction::Down, 3, 3), (1, 0));
    assert_eq!(step_wrapped((1, 1), Direction::Left, 3, 3), (0, 1));
    assert_eq!(step_wrapped((1, 1), Direction::Right, 3, 3), (2, 1));
    assert_eq!(step_wrapped((1, 1), Direction::Up, 3, 3), (1, 0));
    assert_eq!(step_wrapped((1, 1), Direction::Down, 3, 3), (1, 2));
}

#[test]
fn toroidal_step_is_the_step_modulo_the_sides() {
    let (w, h) = (4, 3);
    for x in 0..w {
        for y in 0..h {
            assert_eq!(step_wrapped((x, y), Direction::Left, w, h), ((x - 1).rem_euclid(w), y));
            assert_eq!(step_wrapped((x, y), Direction::Right, w, h), ((x + 1).rem_euclid(w), y));
            assert_eq!(step_wrapped((x, y), Direction::Up, w, h), (x, (y - 1).rem_euclid(h)));
            assert_eq!(step_wrapped((x, y), Direction::Down, w, h), (x, (y + 1).rem_euclid(h)));
        }
    }
}

#[test]
fn neighbors_of_an_inner_cell() {
    assert_eq!(
        find_neighbors((1, 1), 3, 3),
        vec![(0, 0), (0, 1), (0, 2), (1, 0), (1, 2), (2, 0), (2, 1), (2, 2)]
    );
}

#[test]
fn neighbors_of_a_corner_fold_back() {
    assert_eq!(
        find_neighbors((0, 0), 3, 3),
        vec![(2, -1), (2, 0), (2, 1), (0, 2), (0, 1), (1, 2), (1, 0), (1, 1)]
    );
    assert_eq!(
        find_neighbors((2, 2), 3, 3),
        vec![(1, 1), (1, 2), (1, 0), (2, 1), (2, 0), (0, 1), (0, 2), (0, 3)]
    );
}

#[test]
fn speed_shrinks_three_percent_per_level() {
    assert_eq!(get_speed_for_level(1_000_000, 0, 100), 1_000_000);
    assert_eq!(get_speed_for_level(1_000_000, 1, 100), 970_000);
    assert_eq!(get_speed_for_level(1_000_000, 10, 100), 700_000);
    assert_eq!(get_speed_for_level(1_000_000, 33, 100), 10_000);
    assert_eq!(get_speed_for_level(7, 1, 0), 6);
}

#[test]
fn speed_never_falls_below_the_minimum() {
    assert_eq!(get_speed_for_level(200_000, 5, 180_000), 180_000);
    assert_eq!(get_speed_for_level(1_000_000, 34, 100), 100);
    assert_eq!(get_speed_for_level(1_000_000, 1000, 100), 100);
    assert_eq!(get_speed_for_level(u64::MAX, usize::MAX, 7), 7);
    assert_eq!(get_speed_for_level(u64::MAX, 0, 7), u64::MAX);
    assert_eq!(get_speed_for_level(10, 0, 50), 50);
}

#[test]
fn a_second_has_a_million_ticks() {
    assert_eq!(TICKS_PER_SECOND, 1_000_000);
}

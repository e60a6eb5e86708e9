use pacman::grid::{char_to_tile_type, split_rows, Grid, MapError, Tile, TileType};

const MAP: &str = "#####\n#. o#\n#=  #\n#####";

#[test]
fn characters_map_to_tile_kinds() {
    assert_eq!(char_to_tile_type('#'), TileType::Wall);
    assert_eq!(char_to_tile_type('.'), TileType::Pellet);
    assert_eq!(char_to_tile_type(' '), TileType::Floor);
    assert_eq!(char_to_tile_type('o'), TileType::PowerPellet);
    assert_eq!(char_to_tile_type('='), TileType::GhostGate);
    assert_eq!(char_to_tile_type('x'), TileType::Floor);
    assert_eq!(char_to_tile_type('\u{e9}'), TileType::Floor);
}

#[test]
fn rows_end_at_line_feeds() {
    let rows = split_rows("ab\ncd\n");
    assert_eq!(rows, vec![vec!['a', 'b'], vec!['c', 'd']]);
    let rows = split_rows("ab\r\ncd");
    assert_eq!(rows, vec![vec!['a', 'b'], vec!['c', 'd']]);
    let rows = split_rows("ab\n\ncd\r");
    assert_eq!(rows, vec![vec!['a', 'b'], vec![], vec!['c', 'd', '\r']]);
    assert!(split_rows("").is_empty());
    assert_eq!(split_rows("\n"), vec![Vec::<char>::new()]);
}

#[test]
fn grid_holds_the_tiles_of_the_map() {
    let grid = Grid::new(MAP, 8, 5, 4).unwrap();
    assert_eq!(grid.get_num_cols(), 5);
    assert_eq!(grid.get_num_rows(), 4);
    let tile = grid.get_tile((1, 1)).unwrap();
    assert_eq!(tile.type_, TileType::Pellet);
    assert_eq!(tile.get_pos(), (1, 1));
    assert_eq!(tile.get_size(), (8, 8));
    assert_eq!(grid.get_tile((3, 1)).unwrap().type_, TileType::PowerPellet);
    assert_eq!(grid.get_tile((2, 1)).unwrap().type_, TileType::Floor);
    assert_eq!(grid.get_tile((1, 2)).unwrap().type_, TileType::GhostGate);
    assert_eq!(grid.get_tile((0, 0)).unwrap().type_, TileType::Wall);
    assert_eq!(grid.get_tile((4, 3)).unwrap().type_, TileType::Wall);
    assert_eq!(grid.get_tile((3, 2)).unwrap().get_pixels_x(), 24);
    assert_eq!(grid.get_tile((3, 2)).unwrap().get_pixels_y(), 16);
}

#[test]
fn lookup_outside_the_grid_is_empty() {
    let grid = Grid::new(MAP, 8, 5, 4).unwrap();
    assert!(grid.get_tile((5, 0)).is_none());
    assert!(grid.get_tile((0, 4)).is_none());
    assert!(grid.get_tile((-1, 0)).is_none());
    assert!(grid.get_tile((0, -1)).is_none());
    assert!(grid.get_tile((i32::MAX, i32::MAX)).is_none());
    assert!(grid.get_tile((i32::MIN, 2)).is_none());
}

#[test]
fn grid_dimensions_in_pixels() {
    let grid = Grid::new(MAP, 8, 5, 4).unwrap();
    assert_eq!(grid.get_dim_width(), 40);
    assert_eq!(grid.get_dim_height(), 32);
}

#[test]
fn grid_ignores_what_lies_beyond_its_shape() {
    let grid = Grid::new(MAP, 8, 3, 2).unwrap();
    assert_eq!(grid.get_num_cols(), 3);
    assert_eq!(grid.get_num_rows(), 2);
    assert_eq!(grid.get_tile((1, 1)).unwrap().type_, TileType::Pellet);
    assert!(grid.get_tile((3, 1)).is_none());
}

#[test]
fn undersized_maps_are_refused() {
    assert_eq!(Grid::new(MAP, 8, 5, 5).err(), Some(MapError::MissingRows));
    assert_eq!(Grid::new(MAP, 8, 6, 4).err(), Some(MapError::ShortRow));
    assert_eq!(Grid::new("", 8, 1, 1).err(), Some(MapError::MissingRows));
    assert_eq!(Grid::new("###\n##\n###", 8, 3, 3).err(), Some(MapError::ShortRow));
}

#[test]
fn impossible_shapes_are_refused() {
    assert_eq!(Grid::new(MAP, 8, 0, 4).err(), Some(MapError::Dimensions));
    assert_eq!(Grid::new(MAP, 8, 5, 0).err(), Some(MapError::Dimensions));
    assert_eq!(Grid::new(MAP, 8, -1, 4).err(), Some(MapError::Dimensions));
    assert_eq!(Grid::new(MAP, i32::MAX, 5, 4).err(), Some(MapError::Dimensions));
}

#[test]
fn walls_stop_everyone_and_doors_stop_the_player() {
    let wall = Tile::new((0, 0), (1, 1), TileType::Wall);
    let door = Tile::new((0, 0), (1, 1), TileType::GhostGate);
    let floor = Tile::new((0, 0), (1, 1), TileType::Floor);
    let pellet = Tile::new((0, 0), (1, 1), TileType::Pellet);
    let power = Tile::new((0, 0), (1, 1), TileType::PowerPellet);
    assert!(!wall.is_walkable_for_pacman());
    assert!(!wall.is_walkable_for_ghost());
    assert!(!door.is_walkable_for_pacman());
    assert!(door.is_walkable_for_ghost());
    assert!(floor.is_walkable_for_pacman() && floor.is_walkable_for_ghost());
    assert!(pellet.is_walkable_for_pacman() && pellet.is_walkable_for_ghost());
    assert!(power.is_walkable_for_pacman() && power.is_walkable_for_ghost());
    assert_eq!(*door.get_type(), TileType::GhostGate);
}

#[test]
fn tile_array_is_indexed_by_column_then_row() {
    let grid = Grid::new(MAP, 8, 5, 4).unwrap();
    let tiles = grid.get_tiles();
    assert_eq!(tiles.get(3, 1).unwrap().type_, TileType::PowerPellet);
    assert_eq!(tiles.get(1, 2).unwrap().type_, TileType::GhostGate);
    assert_eq!(tiles.get(4, 3).unwrap().get_pos(), (4, 3));
    assert!(tiles.get(5, 0).is_none());
    assert!(tiles.get(0, 4).is_none());
    assert!(tiles.get(usize::MAX, usize::MAX).is_none());
}

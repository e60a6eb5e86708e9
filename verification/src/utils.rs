//! Cell arithmetic shared by the entities: distances, bounds, toroidal
//! stepping, the eight-cell neighbourhood and the per-level speed curve.

use vstd::prelude::*;
use crate::enums::Direction;

verus! {

/// Number of clock ticks in one second. All timers and intervals of the
/// simulation are whole numbers of ticks.
pub const TICKS_PER_SECOND: u64 = 1_000_000;

/// The city-block distance between two cells.
pub open spec fn spec_manhattan_distance(a: (i32, i32), b: (i32, i32)) -> int {
    (vstd::math::abs(a.0 - b.0) + vstd::math::abs(a.1 - b.1)) as int
}

/// Returns the city-block distance between two cells. The sum is taken in
/// 64 bits, so it is exact for every pair of cells.
pub fn manhattan_distance(a: (i32, i32), b: (i32, i32)) -> (d: i64)
    ensures
        d == spec_manhattan_distance(a, b),
        0 <= d,
{
    let dx: i64 = a.0 as i64 - b.0 as i64;
    let dy: i64 = a.1 as i64 - b.1 as i64;
    let ax: i64 = if dx < 0 { -dx } else { dx };
    let ay: i64 = if dy < 0 { -dy } else { dy };
    ax + ay
}

/// Whether `pos` lies on a board of `width` columns and `height` rows.
pub open spec fn in_bounds(pos: (i32, i32), width: i32, height: i32) -> bool {
    0 <= pos.0 < width && 0 <= pos.1 < height
}

/// Tells whether `pos` lies on a board of `width` columns and `height` rows.
pub fn check_bounds(pos: (i32, i32), width: i32, height: i32) -> (b: bool)
    ensures
        b == in_bounds(pos, width, height),
{
    pos.0 >= 0 && pos.0 < width && pos.1 >= 0 && pos.1 < height
}

/// The cell one step from `pos` towards `dir` on a board whose opposite
/// edges are glued together on both axes.
pub open spec fn wrap_step(pos: (i32, i32), dir: Direction, width: i32, height: i32) -> (i32, i32) {
    match dir {
        Direction::Up => (pos.0, if pos.1 - 1 < 0 { (height - 1) as i32 } else { (pos.1 - 1) as i32 }),
        Direction::Down => (pos.0, if pos.1 + 1 >= height { 0i32 } else { (pos.1 + 1) as i32 }),
        Direction::Left => (if pos.0 - 1 < 0 { (width - 1) as i32 } else { (pos.0 - 1) as i32 }, pos.1),
        Direction::Right => (if pos.0 + 1 >= width { 0i32 } else { (pos.0 + 1) as i32 }, pos.1),
    }
}

/// Computes the toroidal neighbour of `pos` towards `dir`.
pub fn step_wrapped(pos: (i32, i32), dir: Direction, width: i32, height: i32) -> (p: (i32, i32))
    requires
        1 <= width,
        1 <= height,
    ensures
        p == wrap_step(pos, dir, width, height),
{
    match dir {
        Direction::Up => (pos.0, if pos.1 <= 0 { height - 1 } else { pos.1 - 1 }),
        Direction::Down => (pos.0, if pos.1 >= height - 1 { 0 } else { pos.1 + 1 }),
        Direction::Left => (if pos.0 <= 0 { width - 1 } else { pos.0 - 1 }, pos.1),
        Direction::Right => (if pos.0 >= width - 1 { 0 } else { pos.0 + 1 }, pos.1),
    }
}

/// The horizontal component of a unit step towards `dir`.
pub open spec fn dir_dx(dir: Direction) -> int {
    match dir {
        Direction::Left => -1,
        Direction::Right => 1,
        _ => 0,
    }
}

/// The vertical component of a unit step towards `dir`; rows grow downwards.
pub open spec fn dir_dy(dir: Direction) -> int {
    match dir {
        Direction::Up => -1,
        Direction::Down => 1,
        _ => 0,
    }
}

/// A toroidal step from a cell of the board is the plain step reduced modulo
/// the width and the height, so it never leaves the board.
pub proof fn lemma_wrap_step_is_modular(pos: (i32, i32), dir: Direction, width: i32, height: i32)
    requires
        in_bounds(pos, width, height),
    ensures
        wrap_step(pos, dir, width, height).0 == (pos.0 + dir_dx(dir)) % (width as int),
        wrap_step(pos, dir, width, height).1 == (pos.1 + dir_dy(dir)) % (height as int),
        in_bounds(wrap_step(pos, dir, width, height), width, height),
{
    let w = width as int;
    let h = height as int;
    lemma_mod_of_unit_step(pos.0 as int, dir_dx(dir), w);
    lemma_mod_of_unit_step(pos.1 as int, dir_dy(dir), h);
}

/// Reducing `x + d` modulo `m`, for `x` in `0..m` and a step `d` of at most
/// one unit, wraps around at either end and is the identity elsewhere.
pub proof fn lemma_mod_of_unit_step(x: int, d: int, m: int)
    requires
        0 <= x < m,
        -1 <= d <= 1,
    ensures
        (x + d) % m == (if x + d < 0 { m - 1 } else if x + d >= m { 0 } else { x + d }),
{
    if x + d < 0 {
        vstd::arithmetic::div_mod::lemma_mod_add_multiples_vanish(x + d, m);
        vstd::arithmetic::div_mod::lemma_small_mod((m - 1) as nat, m as nat);
    } else if x + d >= m {
        vstd::arithmetic::div_mod::lemma_mod_self_0(m);
    } else {
        vstd::arithmetic::div_mod::lemma_small_mod((x + d) as nat, m as nat);
    }
}

/// The offsets of the eight cells around a cell, column by column.
pub open spec fn neighbor_offsets() -> Seq<(int, int)> {
    seq![(-1, -1), (-1, 0), (-1, 1), (0, -1), (0, 1), (1, -1), (1, 0), (1, 1)]
}

/// Where a neighbouring cell `p` lands once it is folded back onto the
/// board. A cell that left by the left or right edge re-enters on the
/// opposite column and keeps its row, whatever that row is; one that left
/// only by the top or bottom edge re-enters on the opposite row.
pub open spec fn fold_neighbor(p: (int, int), width: int, height: int) -> (int, int) {
    if 0 <= p.0 < width && 0 <= p.1 < height {
        p
    } else if p.0 < 0 {
        (width - 1, p.1)
    } else if p.0 >= width {
        (0, p.1)
    } else if p.1 < 0 {
        (p.0, height - 1)
    } else {
        (p.0, 0)
    }
}

/// The `k`-th of the eight neighbours of `pos`.
pub open spec fn spec_neighbor(pos: (i32, i32), k: int, width: i32, height: i32) -> (int, int) {
    let o = neighbor_offsets()[k];
    fold_neighbor((pos.0 + o.0, pos.1 + o.1), width as int, height as int)
}

/// The eight neighbours of `pos`, diagonals included, in offset order.
pub open spec fn spec_find_neighbors(pos: (i32, i32), width: i32, height: i32) -> Seq<(i32, i32)> {
    Seq::new(
        8,
        |k: int| (spec_neighbor(pos, k, width, height).0 as i32, spec_neighbor(pos, k, width, height).1 as i32),
    )
}

/// Computes where the neighbour of `pos` at the offset `(di, dj)` lands.
fn folded(pos: (i32, i32), di: i32, dj: i32, width: i32, height: i32) -> (q: (i32, i32))
    requires
        i32::MIN < pos.0 < i32::MAX,
        i32::MIN < pos.1 < i32::MAX,
        -1 <= di <= 1,
        -1 <= dj <= 1,
        i32::MIN < width,
        i32::MIN < height,
    ensures
        (q.0 as int, q.1 as int) == fold_neighbor((pos.0 + di, pos.1 + dj), width as int, height as int),
{
    let new_pos = (pos.0 + di, pos.1 + dj);
    if check_bounds(new_pos, width, height) {
        new_pos
    } else if new_pos.0 < 0 {
        (width - 1, new_pos.1)
    } else if new_pos.0 >= width {
        (0, new_pos.1)
    } else if new_pos.1 < 0 {
        (new_pos.0, height - 1)
    } else {
        (new_pos.0, 0)
    }
}

/// Lists the eight cells around `pos`, each folded back onto the board as
/// [`fold_neighbor`] describes.
pub fn find_neighbors(pos: (i32, i32), width: i32, height: i32) -> (neighbors: Vec<(i32, i32)>)
    requires
        i32::MIN < pos.0 < i32::MAX,
        i32::MIN < pos.1 < i32::MAX,
        i32::MIN < width,
        i32::MIN < height,
    ensures
        neighbors@ == spec_find_neighbors(pos, width, height),
{
    let mut neighbors: Vec<(i32, i32)> = Vec::new();
    let mut i: i32 = -1;
    while i <= 1
        invariant
            -1 <= i <= 2,
            i32::MIN < pos.0 < i32::MAX,
            i32::MIN < pos.1 < i32::MAX,
            i32::MIN < width,
            i32::MIN < height,
            neighbors@.len() == (if i <= 0 { 3 * (i + 1) } else { 3 * (i + 1) - 1 }),
            forall|k: int| 0 <= k < neighbors@.len() ==> neighbors@[k] == spec_find_neighbors(pos, width, height)[k],
        decreases 2 - i,
    {
        let mut j: i32 = -1;
        while j <= 1
            invariant
                -1 <= i <= 1,
                -1 <= j <= 2,
                i32::MIN < pos.0 < i32::MAX,
                i32::MIN < pos.1 < i32::MAX,
                i32::MIN < width,
                i32::MIN < height,
                neighbors@.len() == (if i < 0 || (i == 0 && j <= 0) { 3 * (i + 1) + (j + 1) } else { 3 * (i + 1) + (j + 1) - 1 }),
                forall|k: int| 0 <= k < neighbors@.len() ==> neighbors@[k] == spec_find_neighbors(pos, width, height)[k],
            decreases 2 - j,
        {
            if !(i == 0 && j == 0) {
                let ghost k = neighbors@.len() as int;
                let q = folded(pos, i, j, width, height);
                assert(neighbor_offsets()[k] == (i as int, j as int));
                neighbors.push(q);
            }
            j += 1;
        }
        i += 1;
    }
    assert(neighbors@ =~= spec_find_neighbors(pos, width, height));
    neighbors
}

/// The movement interval at `level`: the base interval shortened by three
/// percent per level, rounded down to a whole tick, but never below
/// `min_speed`.
pub open spec fn spec_speed_for_level(base_speed: u64, level: usize, min_speed: u64) -> u64 {
    let scaled = if 3 * level >= 100 {
        0
    } else {
        base_speed * (100 - 3 * level) / 100
    };
    if scaled >= min_speed {
        scaled as u64
    } else {
        min_speed
    }
}

/// Returns the movement interval at `level`, in ticks.
pub fn get_speed_for_level(base_speed: u64, level: usize, min_speed: u64) -> (interval: u64)
    ensures
        interval == spec_speed_for_level(base_speed, level, min_speed),
        interval >= min_speed,
{
    if level >= 34 {
        return min_speed;
    }
    let percent: u128 = (100 - 3 * level) as u128;
    assert(base_speed * percent <= base_speed * 100) by (nonlinear_arith)
        requires
            percent <= 100,
    ;
    let scaled: u128 = base_speed as u128 * percent / 100;
    if scaled >= min_speed as u128 {
        scaled as u64
    } else {
        min_speed
    }
}

} // verus!

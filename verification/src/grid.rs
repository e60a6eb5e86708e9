//! The static tile map: tile kinds, the map text format and the grid that
//! the entities move on.

use vstd::prelude::*;
use crate::utils::in_bounds;

verus! {

/// What occupies a cell of the map. A tile never changes its kind; whether
/// a pellet was eaten is recorded by the player, not on the tile.
#[derive(Debug, PartialEq, Eq, Clone, Copy, Structural)]
pub enum TileType {
    Wall,
    Pellet,
    PowerPellet,
    Floor,
    GhostGate,
}

impl TileType {
    /// Whether the player may stand on a tile of this kind: anywhere but on
    /// walls and on the door of the ghost house.
    pub open spec fn pacman_can_enter(self) -> bool {
        self != TileType::Wall && self != TileType::GhostGate
    }

    /// Whether a ghost may stand on a tile of this kind: anywhere but on
    /// walls.
    pub open spec fn ghost_can_enter(self) -> bool {
        self != TileType::Wall
    }

    /// Whether a tile of this kind holds something to eat.
    pub open spec fn is_edible(self) -> bool {
        self == TileType::Pellet || self == TileType::PowerPellet
    }
}

/// One cell of the map.
#[derive(Clone, Copy, Debug)]
pub struct Tile {
    pub pos: (i32, i32),
    pub size: (i32, i32),
    pub type_: TileType,
}

impl Tile {
    /// A tile of kind `type_` at the cell `pos`, `size` pixels wide and high.
    pub fn new(pos: (i32, i32), size: (i32, i32), type_: TileType) -> (t: Self)
        ensures
            t == (Tile { pos, size, type_ }),
    {
        Tile { pos, size, type_ }
    }

    /// The cell of the tile.
    pub fn get_pos(&self) -> (p: (i32, i32))
        ensures
            p == self.pos,
    {
        self.pos
    }

    /// The width and the height of the tile in pixels.
    pub fn get_size(&self) -> (s: (i32, i32))
        ensures
            s == self.size,
    {
        self.size
    }

    /// The horizontal pixel coordinate of the tile's left edge.
    pub fn get_pixels_x(&self) -> (x: i32)
        requires
            i32::MIN <= self.pos.0 * self.size.0 <= i32::MAX,
        ensures
            x == self.pos.0 * self.size.0,
    {
        self.pos.0 * self.size.0
    }

    /// The vertical pixel coordinate of the tile's top edge.
    pub fn get_pixels_y(&self) -> (y: i32)
        requires
            i32::MIN <= self.pos.1 * self.size.1 <= i32::MAX,
        ensures
            y == self.pos.1 * self.size.1,
    {
        self.pos.1 * self.size.1
    }

    /// The kind of the tile.
    pub fn get_type(&self) -> (k: &TileType)
        ensures
            *k == self.type_,
    {
        &self.type_
    }

    /// Tells whether the player may stand on the tile.
    pub fn is_walkable_for_pacman(&self) -> (b: bool)
        ensures
            b == self.type_.pacman_can_enter(),
    {
        match self.type_ {
            TileType::Wall => false,
            TileType::GhostGate => false,
            _ => true,
        }
    }

    /// Tells whether a ghost may stand on the tile.
    pub fn is_walkable_for_ghost(&self) -> (b: bool)
        ensures
            b == self.type_.ghost_can_enter(),
    {
        match self.type_ {
            TileType::Wall => false,
            _ => true,
        }
    }
}

/// The tile kind that a character of the map text stands for. Characters
/// outside the alphabet count as floor.
pub open spec fn spec_char_to_tile_type(c: char) -> TileType {
    if c == '#' {
        TileType::Wall
    } else if c == '.' {
        TileType::Pellet
    } else if c == 'o' {
        TileType::PowerPellet
    } else if c == '=' {
        TileType::GhostGate
    } else {
        TileType::Floor
    }
}

/// Decodes one character of the map text.
pub fn char_to_tile_type(c: char) -> (k: TileType)
    ensures
        k == spec_char_to_tile_type(c),
{
    match c {
        '#' => TileType::Wall,
        '.' => TileType::Pellet,
        ' ' => TileType::Floor,
        'o' => TileType::PowerPellet,
        '=' => TileType::GhostGate,
        _ => TileType::Floor,
    }
}

/// The index of the first line feed in `s`, or the length of `s` if it has
/// none.
pub open spec fn first_newline(s: Seq<char>) -> nat
    decreases s.len(),
{
    if s.len() == 0 || s[0] == '\n' {
        0
    } else {
        1 + first_newline(s.drop_first())
    }
}

/// `line` without the carriage return that ends it, if one does.
pub open spec fn strip_cr(line: Seq<char>) -> Seq<char> {
    if line.len() > 0 && line.last() == '\r' {
        line.drop_last()
    } else {
        line
    }
}

/// The rows of a map text. Every line feed ends a row, and a carriage
/// return just before it is dropped with it; characters after the last line
/// feed form a final row, kept as it is. An empty text has no rows.
pub open spec fn map_rows(text: Seq<char>) -> Seq<Seq<char>>
    decreases text.len(),
{
    if text.len() == 0 {
        Seq::empty()
    } else {
        let n = first_newline(text);
        if n >= text.len() {
            seq![text]
        } else {
            seq![strip_cr(text.take(n as int))] + map_rows(text.skip(n as int + 1))
        }
    }
}

/// The character sequences held by a vector of rows.
pub open spec fn rows_view(rows: Seq<Vec<char>>) -> Seq<Seq<char>> {
    Seq::new(rows.len(), |r: int| rows[r]@)
}

/// The first line feed of `s` is at `n` if none comes before `n` and one
/// stands at `n`, or `s` ends there.
proof fn lemma_first_newline(s: Seq<char>, n: int)
    requires
        0 <= n <= s.len(),
        forall|k: int| 0 <= k < n ==> s[k] != '\n',
        n == s.len() || s[n] == '\n',
    ensures
        first_newline(s) == n,
        first_newline(s) <= s.len(),
    decreases n,
{
    if n > 0 {
        let t = s.drop_first();
        assert forall|k: int| 0 <= k < n - 1 implies t[k] != '\n' by {
            assert(t[k] == s[k + 1]);
        }
        lemma_first_newline(t, n - 1);
    }
}

/// Splits a map text into its rows.
pub fn split_rows(text: &str) -> (rows: Vec<Vec<char>>)
    ensures
        rows_view(rows@) == map_rows(text@),
{
    let mut rows: Vec<Vec<char>> = Vec::new();
    let mut cur: Vec<char> = Vec::new();
    let ghost mut i: int = 0;
    proof {
        assert(cur@ + text@.skip(0) =~= text@);
        assert(rows_view(rows@) + map_rows(text@) =~= map_rows(text@));
    }
    for c in it: text.chars()
        invariant
            it.seq() == text@,
            i == it.index(),
            0 <= i <= text@.len(),
            forall|k: int| 0 <= k < cur@.len() ==> cur@[k] != '\n',
            map_rows(text@) == rows_view(rows@) + map_rows(cur@ + text@.skip(i)),
    {
        let ghost rest = cur@ + text@.skip(i);
        assert(c == text@[i]);
        if c == '\n' {
            proof {
                assert(rest[cur@.len() as int] == '\n');
                lemma_first_newline(rest, cur@.len() as int);
                assert(rest.take(cur@.len() as int) =~= cur@);
                assert(rest.skip(cur@.len() as int + 1) =~= Seq::<char>::empty() + text@.skip(i + 1));
            }
            let n = cur.len();
            if n > 0 && cur[n - 1] == '\r' {
                cur.pop();
            }
            let ghost before = rows_view(rows@);
            rows.push(cur);
            cur = Vec::new();
            proof {
                assert(rows_view(rows@) =~= before + seq![strip_cr(rest.take(first_newline(rest) as int))]);
                assert(cur@ =~= Seq::<char>::empty());
            }
        } else {
            cur.push(c);
            proof {
                assert(cur@ + text@.skip(i + 1) =~= rest);
            }
        }
        proof {
            i = i + 1;
        }
    }
    proof {
        assert(text@.skip(i) =~= Seq::<char>::empty());
        assert(cur@ + text@.skip(i) =~= cur@);
        lemma_first_newline(cur@, cur@.len() as int);
    }
    if cur.len() > 0 {
        let ghost before = rows_view(rows@);
        rows.push(cur);
        proof {
            assert(rows_view(rows@) =~= before + seq![cur@]);
        }
    } else {
        proof {
            assert(rows_view(rows@) + Seq::<Seq<char>>::empty() =~= rows_view(rows@));
        }
    }
    rows
}

/// Why a map text cannot be loaded as a grid of the requested shape.
#[derive(Debug, PartialEq, Eq, Clone, Copy, Structural)]
pub enum MapError {
    /// A side is smaller than one cell, the grid would be wider or taller in
    /// pixels than an `i32` can say, or it has more cells than can be held.
    Dimensions,
    /// The text has fewer rows than the grid.
    MissingRows,
    /// One of the rows that the grid needs has fewer characters than the
    /// grid has columns.
    ShortRow,
}

/// The tile at column `col` and row `row` of a map whose rows are `rows`.
pub open spec fn spec_tile_from_map(rows: Seq<Seq<char>>, tile_size: i32, col: int, row: int) -> Tile {
    Tile {
        pos: (col as i32, row as i32),
        size: (tile_size, tile_size),
        type_: spec_char_to_tile_type(rows[row][col]),
    }
}

/// Makes the tile at column `col` and row `row` of a map.
fn tile_from_map(rows: &Vec<Vec<char>>, tile_size: i32, col: usize, row: usize) -> (t: Tile)
    requires
        row < rows@.len(),
        col < rows@[row as int]@.len(),
        col <= i32::MAX,
        row <= i32::MAX,
    ensures
        t == spec_tile_from_map(rows_view(rows@), tile_size, col as int, row as int),
{
    Tile::new((col as i32, row as i32), (tile_size, tile_size), char_to_tile_type(rows[row][col]))
}

/// A two-dimensional array of tiles, indexed by column and then by row:
/// an `ndarray::Array2`. The verifier does not look inside; what it holds
/// is told by [`tile_cells`].
#[verifier::external_body]
pub struct TileArray {
    inner: ndarray::Array2<Tile>,
}

/// The tiles of an array, column by column: `tile_cells(a)[c][r]` is the
/// tile at column `c` and row `r`.
pub uninterp spec fn tile_cells(a: TileArray) -> Seq<Seq<Tile>>;

/// Builds the tile array of a map with `ndarray::Array2::from_shape_fn`.
/// It is trusted that the array has `num_cols` columns of `num_rows` tiles
/// and that the tile at each index is the one the closure makes for that
/// index. The shape must not overflow `isize`, else the call panics.
#[verifier::external_body]
fn tiles_from_rows(rows: &Vec<Vec<char>>, tile_size: i32, num_cols: usize, num_rows: usize) -> (a: TileArray)
    requires
        num_cols * num_rows <= isize::MAX,
        num_cols <= i32::MAX,
        num_rows <= i32::MAX,
        num_rows <= rows@.len(),
        forall|r: int| 0 <= r < num_rows ==> num_cols <= (#[trigger] rows@[r])@.len(),
    ensures
        tile_cells(a).len() == num_cols,
        forall|c: int| 0 <= c < num_cols ==> (#[trigger] tile_cells(a)[c]).len() == num_rows,
        forall|c: int, r: int|
            0 <= c < num_cols && 0 <= r < num_rows ==> #[trigger] tile_cells(a)[c][r] == spec_tile_from_map(
                rows_view(rows@),
                tile_size,
                c,
                r,
            ),
{
    TileArray {
        inner: ndarray::Array2::from_shape_fn(
            (num_cols, num_rows),
            |(col, row)| tile_from_map(rows, tile_size, col, row),
        ),
    }
}

/// Looks a tile up with `ndarray::ArrayBase::get`. It is trusted that the
/// call returns the tile at the index if the index lies inside the array,
/// and nothing otherwise.
#[verifier::external_body]
fn tile_lookup(a: &TileArray, col: usize, row: usize) -> (t: Option<&Tile>)
    ensures
        t == (if col < tile_cells(*a).len() && row < tile_cells(*a)[col as int].len() {
            Some(&tile_cells(*a)[col as int][row as int])
        } else {
            None
        }),
{
    a.inner.get((col, row))
}

impl TileArray {
    /// The tile at column `col` and row `row`, or nothing if the array has
    /// no such index.
    pub fn get(&self, col: usize, row: usize) -> (t: Option<&Tile>)
        ensures
            t == (if col < tile_cells(*self).len() && row < tile_cells(*self)[col as int].len() {
                Some(&tile_cells(*self)[col as int][row as int])
            } else {
                None
            }),
    {
        tile_lookup(self, col, row)
    }
}

/// The mathematical content of a grid: its shape and the kind of each tile,
/// column by column.
pub struct GridView {
    pub num_cols: i32,
    pub num_rows: i32,
    pub tile_size: i32,
    pub kinds: Seq<Seq<TileType>>,
}

impl GridView {
    /// A grid has at least one cell, as many kinds as cells, and pixel
    /// extents that an `i32` can say.
    pub open spec fn wf(self) -> bool {
        &&& 1 <= self.num_cols
        &&& 1 <= self.num_rows
        &&& i32::MIN <= self.num_cols * self.tile_size <= i32::MAX
        &&& i32::MIN <= self.num_rows * self.tile_size <= i32::MAX
        &&& self.kinds.len() == self.num_cols
        &&& forall|c: int| 0 <= c < self.num_cols ==> (#[trigger] self.kinds[c]).len() == self.num_rows
    }

    /// Whether `pos` is a cell of the grid.
    pub open spec fn contains(self, pos: (i32, i32)) -> bool {
        in_bounds(pos, self.num_cols, self.num_rows)
    }

    /// The kind of the tile at `pos`, if `pos` is a cell of the grid.
    pub open spec fn kind(self, pos: (i32, i32)) -> Option<TileType> {
        if self.contains(pos) {
            Some(self.kinds[pos.0 as int][pos.1 as int])
        } else {
            None
        }
    }

    /// The tile at `pos`, if `pos` is a cell of the grid.
    pub open spec fn tile(self, pos: (i32, i32)) -> Option<Tile> {
        if self.contains(pos) {
            Some(Tile { pos, size: (self.tile_size, self.tile_size), type_: self.kinds[pos.0 as int][pos.1 as int] })
        } else {
            None
        }
    }

    /// Whether the player may step onto `pos`. A position off the grid
    /// cannot be entered.
    pub open spec fn pacman_can_enter(self, pos: (i32, i32)) -> bool {
        self.contains(pos) && self.kinds[pos.0 as int][pos.1 as int].pacman_can_enter()
    }

    /// Whether a ghost may step onto `pos`. A position off the grid cannot
    /// be entered.
    pub open spec fn ghost_can_enter(self, pos: (i32, i32)) -> bool {
        self.contains(pos) && self.kinds[pos.0 as int][pos.1 as int].ghost_can_enter()
    }

    /// Whether the tile at `pos` is a pellet or a power pellet.
    pub open spec fn is_edible(self, pos: (i32, i32)) -> bool {
        self.contains(pos) && self.kinds[pos.0 as int][pos.1 as int].is_edible()
    }
}

/// Why the map `text` cannot be loaded as a grid of `num_cols` by
/// `num_rows` tiles of `tile_size` pixels, or `None` if it can. The shape is
/// judged first, then the number of rows, then their lengths; rows and
/// characters beyond the shape are ignored.
pub open spec fn load_error(text: Seq<char>, tile_size: i32, num_cols: i32, num_rows: i32) -> Option<MapError> {
    let rows = map_rows(text);
    if num_cols < 1 || num_rows < 1 || !(i32::MIN <= num_cols * tile_size <= i32::MAX) || !(i32::MIN
        <= num_rows * tile_size <= i32::MAX) || num_cols * num_rows > isize::MAX {
        Some(MapError::Dimensions)
    } else if rows.len() < num_rows {
        Some(MapError::MissingRows)
    } else if exists|r: int| 0 <= r < num_rows && (#[trigger] rows[r]).len() < num_cols {
        Some(MapError::ShortRow)
    } else {
        None
    }
}

/// The grid that the map `text` describes: the tile at column `c` of row
/// `r` has the kind of the `c`-th character of the `r`-th row.
pub open spec fn loaded_view(text: Seq<char>, tile_size: i32, num_cols: i32, num_rows: i32) -> GridView {
    GridView {
        num_cols,
        num_rows,
        tile_size,
        kinds: Seq::new(
            num_cols as nat,
            |c: int| Seq::new(num_rows as nat, |r: int| spec_char_to_tile_type(map_rows(text)[r][c])),
        ),
    }
}

/// The tile map. It is loaded once and never changes.
pub struct Grid {
    tiles: TileArray,
    num_cols: i32,
    num_rows: i32,
    tile_size: i32,
}

impl View for Grid {
    type V = GridView;

    closed spec fn view(&self) -> GridView {
        GridView {
            num_cols: self.num_cols,
            num_rows: self.num_rows,
            tile_size: self.tile_size,
            kinds: Seq::new(
                tile_cells(self.tiles).len(),
                |c: int| Seq::new(tile_cells(self.tiles)[c].len(), |r: int| tile_cells(self.tiles)[c][r].type_),
            ),
        }
    }
}

impl Grid {
    /// Every tile of the array knows its own position and has the grid's
    /// tile size.
    pub closed spec fn tiles_agree(&self) -> bool {
        forall|c: int, r: int|
            0 <= c < self.num_cols && 0 <= r < self.num_rows ==> {
                &&& (#[trigger] tile_cells(self.tiles)[c][r]).pos == (c as i32, r as i32)
                &&& tile_cells(self.tiles)[c][r].size == (self.tile_size, self.tile_size)
            }
    }

    /// The invariant of a loaded grid.
    pub open spec fn wf(&self) -> bool {
        self@.wf() && self.tiles_agree()
    }

    /// The tile array of the grid.
    pub closed spec fn spec_tiles(&self) -> TileArray {
        self.tiles
    }

    /// Loads the grid of `num_cols` by `num_rows` tiles from a map text.
    #[verifier::loop_isolation(false)]
    pub fn new(map: &str, tile_size: i32, num_cols: i32, num_rows: i32) -> (res: Result<Grid, MapError>)
        ensures
            match res {
                Ok(g) => {
                    &&& load_error(map@, tile_size, num_cols, num_rows) is None
                    &&& g.wf()
                    &&& g@ == loaded_view(map@, tile_size, num_cols, num_rows)
                },
                Err(e) => load_error(map@, tile_size, num_cols, num_rows) == Some(e),
            },
    {
        if num_cols < 1 || num_rows < 1 {
            return Err(MapError::Dimensions);
        }
        assert(-0x4000_0000_0000_0000 <= num_cols * tile_size <= 0x4000_0000_0000_0000) by (nonlinear_arith)
            requires
                1 <= num_cols <= 0x7fff_ffff,
                -0x8000_0000 <= tile_size <= 0x7fff_ffff,
        ;
        assert(-0x4000_0000_0000_0000 <= num_rows * tile_size <= 0x4000_0000_0000_0000) by (nonlinear_arith)
            requires
                1 <= num_rows <= 0x7fff_ffff,
                -0x8000_0000 <= tile_size <= 0x7fff_ffff,
        ;
        let width_px: i64 = num_cols as i64 * tile_size as i64;
        let height_px: i64 = num_rows as i64 * tile_size as i64;
        if width_px < i32::MIN as i64 || width_px > i32::MAX as i64 || height_px < i32::MIN as i64 || height_px
            > i32::MAX as i64 {
            return Err(MapError::Dimensions);
        }
        assert(num_cols * num_rows <= 0x3fff_ffff_0000_0001) by (nonlinear_arith)
            requires
                1 <= num_cols <= 0x7fff_ffff,
                1 <= num_rows <= 0x7fff_ffff,
        ;
        let cells: u64 = num_cols as u64 * num_rows as u64;
        if cells > isize::MAX as u64 {
            return Err(MapError::Dimensions);
        }
        let rows = split_rows(map);
        if rows.len() < num_rows as usize {
            return Err(MapError::MissingRows);
        }
        let mut r: usize = 0;
        while r < num_rows as usize
            invariant
                1 <= num_cols,
                0 <= r <= num_rows,
                num_rows <= rows@.len(),
                rows_view(rows@) == map_rows(map@),
                forall|k: int| 0 <= k < r ==> num_cols <= (#[trigger] rows@[k])@.len(),
            decreases num_rows - r,
        {
            if rows[r].len() < num_cols as usize {
                assert(map_rows(map@)[r as int].len() < num_cols);
                return Err(MapError::ShortRow);
            }
            r += 1;
        }
        assert forall|k: int| 0 <= k < num_rows implies !((#[trigger] map_rows(map@)[k]).len() < num_cols) by {
            assert(rows_view(rows@)[k] == rows@[k]@);
        }
        let tiles = tiles_from_rows(&rows, tile_size, num_cols as usize, num_rows as usize);
        let g = Grid { tiles, num_cols, num_rows, tile_size };
        proof {
            let want = loaded_view(map@, tile_size, num_cols, num_rows);
            assert(g@.kinds.len() == want.kinds.len());
            assert forall|c: int| 0 <= c < num_cols implies g@.kinds[c] =~= want.kinds[c] by {
                assert(tile_cells(g.tiles)[c].len() == num_rows);
                assert forall|k: int| 0 <= k < num_rows implies g@.kinds[c][k] == want.kinds[c][k] by {
                    assert(tile_cells(g.tiles)[c][k] == spec_tile_from_map(rows_view(rows@), tile_size, c, k));
                }
            }
            assert(g@.kinds =~= want.kinds);
            assert forall|c: int, k: int| 0 <= c < num_cols && 0 <= k < num_rows implies {
                &&& (#[trigger] tile_cells(g.tiles)[c][k]).pos == (c as i32, k as i32)
                &&& tile_cells(g.tiles)[c][k].size == (tile_size, tile_size)
            } by {
                assert(tile_cells(g.tiles)[c][k] == spec_tile_from_map(rows_view(rows@), tile_size, c, k));
            }
        }
        Ok(g)
    }

    /// The tiles as an array indexed by column and row.
    pub fn get_tiles(&self) -> (a: &TileArray)
        ensures
            *a == self.spec_tiles(),
            self.wf() ==> tile_cells(*a).len() == self@.num_cols,
            self.wf() ==> forall|c: int|
                0 <= c < self@.num_cols ==> (#[trigger] tile_cells(*a)[c]).len() == self@.num_rows,
            self.wf() ==> forall|c: int, r: int|
                0 <= c < self@.num_cols && 0 <= r < self@.num_rows ==> Some(#[trigger] tile_cells(*a)[c][r])
                    == self@.tile((c as i32, r as i32)),
    {
        proof {
            if self.wf() {
                assert forall|c: int| 0 <= c < self@.num_cols implies (#[trigger] tile_cells(self.tiles)[c]).len()
                    == self@.num_rows by {
                    assert(self@.kinds[c].len() == self@.num_rows);
                }
                assert forall|c: int, r: int| 0 <= c < self@.num_cols && 0 <= r < self@.num_rows implies Some(
                    #[trigger] tile_cells(self.tiles)[c][r],
                ) == self@.tile((c as i32, r as i32)) by {
                    assert(self@.kinds[c].len() == self@.num_rows);
                    assert(tile_cells(self.tiles)[c][r].pos == (c as i32, r as i32));
                }
            }
        }
        &self.tiles
    }

    /// The tile at `pos`, or nothing if `pos` is not a cell of the grid.
    pub fn get_tile(&self, pos: (i32, i32)) -> (t: Option<&Tile>)
        requires
            self.wf(),
        ensures
            t is Some <==> self@.contains(pos),
            match t {
                Some(tile) => Some(*tile) == self@.tile(pos),
                None => self@.tile(pos) is None,
            },
    {
        if pos.0 < 0 || pos.1 < 0 {
            return None;
        }
        let t = tile_lookup(&self.tiles, pos.0 as usize, pos.1 as usize);
        proof {
            if self@.contains(pos) {
                assert(self@.kinds[pos.0 as int].len() == self.num_rows);
                assert(tile_cells(self.tiles)[pos.0 as int][pos.1 as int].pos == pos);
            } else if pos.0 < self.num_cols {
                assert(self@.kinds[pos.0 as int].len() == self.num_rows);
            }
        }
        t
    }

    /// The number of columns.
    pub fn get_num_cols(&self) -> (n: i32)
        ensures
            n == self@.num_cols,
    {
        self.num_cols
    }

    /// The number of rows.
    pub fn get_num_rows(&self) -> (n: i32)
        ensures
            n == self@.num_rows,
    {
        self.num_rows
    }

    /// The width of the grid in pixels.
    pub fn get_dim_width(&self) -> (w: i32)
        requires
            self.wf(),
        ensures
            w == self@.num_cols * self@.tile_size,
    {
        match self.get_tile((0, 0)) {
            Some(tile) => self.num_cols * tile.size.0,
            None => 0,
        }
    }

    /// The height of the grid in pixels.
    pub fn get_dim_height(&self) -> (h: i32)
        requires
            self.wf(),
        ensures
            h == self@.num_rows * self@.tile_size,
    {
        match self.get_tile((0, 0)) {
            Some(tile) => self.num_rows * tile.size.1,
            None => 0,
        }
    }
}

} // verus!

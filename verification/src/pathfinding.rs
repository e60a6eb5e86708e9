//! A full-graph search over the board: an alternative to the ghosts'
//! greedy step, for when a whole route to the target is wanted. The board
//! is searched as the eight-cell neighbourhood connects it; walls play no
//! part.

use vstd::prelude::*;
use std::collections::HashMap;
use crate::utils::{find_neighbors, in_bounds, manhattan_distance, spec_find_neighbors, spec_manhattan_distance};

verus! {

/// `a + b`, stopped at the greatest `i64`.
pub open spec fn capped_sum(a: i64, b: i64) -> i64 {
    if a + b > i64::MAX {
        i64::MAX
    } else if a + b < i64::MIN {
        i64::MIN
    } else {
        (a + b) as i64
    }
}

/// Adds two costs; a sum outside the range of `i64` stops at the nearer end.
fn add_capped(a: i64, b: i64) -> (s: i64)
    ensures
        s == capped_sum(a, b),
{
    let wide: i128 = a as i128 + b as i128;
    if wide > i64::MAX as i128 {
        i64::MAX
    } else if wide < i64::MIN as i128 {
        i64::MIN
    } else {
        wide as i64
    }
}

/// What the search knows of one cell: the cost of the best route found to
/// it, the estimated rest of the way, their sum, and the cells around it.
pub struct Node {
    pub g: i64,
    pub h: i64,
    pub f: i64,
    pub pos: (i32, i32),
    pub neighbors: Vec<(i32, i32)>,
}

/// Whether `node` is the untouched node of the cell `pos` on a board of
/// `width` by `height` cells.
pub open spec fn is_fresh_node(node: Node, pos: (i32, i32), width: i32, height: i32) -> bool {
    &&& node.g == 0
    &&& node.h == 0
    &&& node.f == 0
    &&& node.pos == pos
    &&& node.neighbors@ == spec_find_neighbors(pos, width, height)
}

impl Node {
    /// The untouched node of the cell `pos`.
    pub fn new(pos: (i32, i32), width: i32, height: i32) -> (node: Self)
        requires
            i32::MIN < pos.0 < i32::MAX,
            i32::MIN < pos.1 < i32::MAX,
            i32::MIN < width,
            i32::MIN < height,
        ensures
            is_fresh_node(node, pos, width, height),
    {
        Node { g: 0, h: 0, f: 0, pos, neighbors: find_neighbors(pos, width, height) }
    }

    /// `self` with the estimate towards `goal` renewed.
    pub open spec fn aimed_at(self, goal: (i32, i32)) -> Node {
        Node {
            h: spec_manhattan_distance(self.pos, goal) as i64,
            f: capped_sum(self.g, spec_manhattan_distance(self.pos, goal) as i64),
            ..self
        }
    }

    /// `self` reached at cost `g` on the way to `goal`.
    pub open spec fn reached(self, g: i64, goal: (i32, i32)) -> Node {
        (Node { g, ..self }).aimed_at(goal)
    }
}

/// Makes the untouched node at column `col` and row `row`.
fn node_at(col: usize, row: usize, width: i32, height: i32) -> (node: Node)
    requires
        col < width,
        row < height,
    ensures
        is_fresh_node(node, (col as i32, row as i32), width, height),
{
    Node::new((col as i32, row as i32), width, height)
}

/// A two-dimensional array of nodes, indexed by column and then by row:
/// an `ndarray::Array2`. The verifier does not look inside; what it holds
/// is told by [`node_cells`].
#[verifier::external_body]
pub struct NodeArray {
    inner: ndarray::Array2<Node>,
}

/// The nodes of an array, column by column: `node_cells(a)[c][r]` is the
/// node at column `c` and row `r`.
pub uninterp spec fn node_cells(a: NodeArray) -> Seq<Seq<Node>>;

/// Builds the node array of a board with `ndarray::Array2::from_shape_fn`.
/// It is trusted that the array has `width` columns of `height` nodes and
/// that the node at each index is the one the closure makes for that
/// index. The shape must not overflow `isize`, else the call panics.
#[verifier::external_body]
fn nodes_for_board(width: i32, height: i32) -> (a: NodeArray)
    requires
        0 <= width,
        0 <= height,
        width * height <= isize::MAX,
    ensures
        node_cells(a).len() == width,
        forall|c: int| 0 <= c < width ==> (#[trigger] node_cells(a)[c]).len() == height,
        forall|c: int, r: int|
            0 <= c < width && 0 <= r < height ==> is_fresh_node(
                #[trigger] node_cells(a)[c][r],
                (c as i32, r as i32),
                width,
                height,
            ),
{
    NodeArray {
        inner: ndarray::Array2::from_shape_fn(
            (width as usize, height as usize),
            |(col, row)| node_at(col, row, width, height),
        ),
    }
}

/// Borrows a node with the indexing of `ndarray::ArrayBase`. It is trusted
/// that the node is the one at the index. The index must lie inside the
/// array, else the call panics.
#[verifier::external_body]
fn node_ref(a: &NodeArray, col: usize, row: usize) -> (node: &Node)
    requires
        col < node_cells(*a).len(),
        row < node_cells(*a)[col as int].len(),
    ensures
        *node == node_cells(*a)[col as int][row as int],
{
    &a.inner[(col, row)]
}

/// Borrows a node for writing with the indexing of `ndarray::ArrayBase`.
/// It is trusted that the node is the one at the index, and that what is
/// written to it is all that changes in the array. The index must lie
/// inside the array, else the call panics.
#[verifier::external_body]
fn node_mut(a: &mut NodeArray, col: usize, row: usize) -> (node: &mut Node)
    requires
        col < node_cells(*old(a)).len(),
        row < node_cells(*old(a))[col as int].len(),
    ensures
        *node == node_cells(*old(a))[col as int][row as int],
        node_cells(*final(a)) == node_cells(*old(a)).update(
            col as int,
            node_cells(*old(a))[col as int].update(row as int, *final(node)),
        ),
{
    &mut a.inner[(col, row)]
}

/// Tells whether `cell` occurs in `list`.
pub fn list_contains(list: &Vec<(i32, i32)>, cell: (i32, i32)) -> (b: bool)
    ensures
        b == list@.contains(cell),
{
    let n = list.len();
    let mut i: usize = 0;
    while i < n
        invariant
            i <= n,
            n == list@.len(),
            forall|k: int| 0 <= k < i ==> list@[k] != cell,
        decreases n - i,
    {
        let here = list[i];
        if here.0 == cell.0 && here.1 == cell.1 {
            return true;
        }
        i += 1;
    }
    false
}

/// The mathematical content of a search: the board, the two lists, the
/// goal, and the node of every cell.
pub struct AStarView {
    pub width: i32,
    pub height: i32,
    pub open_list: Seq<(i32, i32)>,
    pub closed_list: Seq<(i32, i32)>,
    pub current_goal: Option<(i32, i32)>,
    pub nodes: Seq<Seq<Node>>,
}

impl AStarView {
    /// Every cell of the board has a node, and every node knows its cell
    /// and the cells around it.
    pub open spec fn wf(self) -> bool {
        &&& 0 <= self.width
        &&& 0 <= self.height
        &&& self.nodes.len() == self.width
        &&& forall|c: int| 0 <= c < self.width ==> (#[trigger] self.nodes[c]).len() == self.height
        &&& forall|c: int, r: int|
            0 <= c < self.width && 0 <= r < self.height ==> {
                &&& (#[trigger] self.nodes[c][r]).pos == (c as i32, r as i32)
                &&& self.nodes[c][r].neighbors@ == spec_find_neighbors((c as i32, r as i32), self.width, self.height)
            }
    }

    /// Whether `pos` is a cell of the board.
    pub open spec fn contains(self, pos: (i32, i32)) -> bool {
        in_bounds(pos, self.width, self.height)
    }

    /// The node of the cell `pos`.
    pub open spec fn node(self, pos: (i32, i32)) -> Node {
        self.nodes[pos.0 as int][pos.1 as int]
    }

    /// The nodes once the estimates of the cells in the open list were
    /// renewed towards `goal`.
    pub open spec fn aimed_at(self, goal: (i32, i32)) -> Seq<Seq<Node>> {
        Seq::new(
            self.nodes.len(),
            |c: int|
                Seq::new(
                    self.nodes[c].len(),
                    |r: int|
                        if self.open_list.contains((c as i32, r as i32)) {
                            self.nodes[c][r].aimed_at(goal)
                        } else {
                            self.nodes[c][r]
                        },
                ),
        )
    }
}

/// The search.
pub struct AStar {
    grid: NodeArray,
    open_list: Vec<(i32, i32)>,
    closed_list: Vec<(i32, i32)>,
    current_goal: Option<(i32, i32)>,
    width: i32,
    height: i32,
}

impl View for AStar {
    type V = AStarView;

    closed spec fn view(&self) -> AStarView {
        AStarView {
            width: self.width,
            height: self.height,
            open_list: self.open_list@,
            closed_list: self.closed_list@,
            current_goal: self.current_goal,
            nodes: node_cells(self.grid),
        }
    }
}

impl AStar {
    /// The invariant of a search.
    pub open spec fn wf(&self) -> bool {
        self@.wf()
    }

    /// A search on a board of `width` by `height` cells, with empty lists
    /// and no goal.
    pub fn new(width: i32, height: i32) -> (search: Self)
        requires
            0 <= width,
            0 <= height,
            width * height <= isize::MAX,
        ensures
            search.wf(),
            search@.width == width,
            search@.height == height,
            search@.open_list == Seq::<(i32, i32)>::empty(),
            search@.closed_list == Seq::<(i32, i32)>::empty(),
            search@.current_goal == None::<(i32, i32)>,
            forall|c: int, r: int|
                0 <= c < width && 0 <= r < height ==> is_fresh_node(
                    #[trigger] search@.nodes[c][r],
                    (c as i32, r as i32),
                    width,
                    height,
                ),
    {
        let grid = nodes_for_board(width, height);
        AStar { open_list: Vec::new(), closed_list: Vec::new(), grid, current_goal: None, width, height }
    }

    /// The open list: the cells reached and not yet expanded.
    pub fn get_open_list(&self) -> (list: &Vec<(i32, i32)>)
        ensures
            list@ == self@.open_list,
    {
        &self.open_list
    }

    /// The closed list: the cells expanded, in the order of expansion.
    pub fn get_closed_list(&self) -> (list: &Vec<(i32, i32)>)
        ensures
            list@ == self@.closed_list,
    {
        &self.closed_list
    }

    /// The goal of the search.
    pub fn get_goal(&self) -> (goal: Option<(i32, i32)>)
        ensures
            goal == self@.current_goal,
    {
        self.current_goal
    }

    /// The node of the cell `pos`, or nothing if `pos` is off the board.
    pub fn get_node(&self, pos: (i32, i32)) -> (node: Option<&Node>)
        requires
            self.wf(),
        ensures
            node is Some <==> self@.contains(pos),
            node matches Some(n) ==> *n == self@.node(pos),
    {
        if pos.0 >= 0 && pos.1 >= 0 && pos.0 < self.width && pos.1 < self.height {
            assert(self@.nodes[pos.0 as int].len() == self.height);
            Some(node_ref(&self.grid, pos.0 as usize, pos.1 as usize))
        } else {
            None
        }
    }

    /// Empties both lists.
    fn reset_path(&mut self)
        ensures
            final(self)@ == (AStarView {
                open_list: Seq::empty(),
                closed_list: Seq::empty(),
                ..old(self)@
            }),
    {
        self.open_list.clear();
        self.closed_list.clear();
    }

    /// Writes the cost `g` of reaching `pos`, and the estimate from there
    /// to `goal`, into the node of `pos`.
    fn reach(&mut self, pos: (i32, i32), g: i64, goal: (i32, i32))
        requires
            old(self).wf(),
            old(self)@.contains(pos),
        ensures
            final(self).wf(),
            final(self)@ == (AStarView {
                nodes: old(self)@.nodes.update(
                    pos.0 as int,
                    old(self)@.nodes[pos.0 as int].update(pos.1 as int, old(self)@.node(pos).reached(g, goal)),
                ),
                ..old(self)@
            }),
    {
        assert(self@.nodes[pos.0 as int].len() == self.height);
        let node = node_mut(&mut self.grid, pos.0 as usize, pos.1 as usize);
        node.g = g;
        node.h = manhattan_distance(node.pos, goal);
        node.f = add_capped(node.g, node.h);
    }
}

/// Whether on a board of `width` by `height` cells one move leads from the
/// cell `a` to the cell `b`: both lie on the board, and `b` is one of the
/// eight cells around `a`.
pub open spec fn is_step(a: (i32, i32), b: (i32, i32), width: i32, height: i32) -> bool {
    &&& in_bounds(a, width, height)
    &&& in_bounds(b, width, height)
    &&& spec_find_neighbors(a, width, height).contains(b)
}

/// Whether `path` leads from `start` to `goal`, one move after the other.
/// A single cell is a path from itself to itself, wherever it lies.
pub open spec fn is_path(path: Seq<(i32, i32)>, start: (i32, i32), goal: (i32, i32), width: i32, height: i32) -> bool {
    &&& path.len() > 0
    &&& path[0] == start
    &&& path.last() == goal
    &&& forall|k: int| 0 <= k < path.len() - 1 ==> is_step(#[trigger] path[k], path[k + 1], width, height)
}

/// The number under which the route table files the cell `c`.
pub open spec fn cell_key(c: (i32, i32)) -> u64 {
    ((c.0 - i32::MIN) * 0x1_0000_0000 + (c.1 - i32::MIN)) as u64
}

/// Computes the number under which the route table files the cell `c`.
fn key_of(c: (i32, i32)) -> (k: u64)
    ensures
        k == cell_key(c),
{
    let x: u64 = (c.0 as i64 - i32::MIN as i64) as u64;
    let y: u64 = (c.1 as i64 - i32::MIN as i64) as u64;
    x * 0x1_0000_0000 + y
}

/// Two cells filed under one number are one cell.
proof fn lemma_key_is_injective(a: (i32, i32), b: (i32, i32))
    requires
        cell_key(a) == cell_key(b),
    ensures
        a == b,
{
}

impl AStarView {
    /// Whether the cell at index `i` of the open list is the one to expand
    /// next: none in the list has a lower estimated total, and none before
    /// it has one as low.
    pub open spec fn is_lowest(self, i: int) -> bool {
        &&& 0 <= i < self.open_list.len()
        &&& forall|j: int|
            0 <= j < self.open_list.len() ==> self.node(self.open_list[i]).f <= self.node(
                #[trigger] self.open_list[j],
            ).f
        &&& forall|j: int| 0 <= j < i ==> self.node(self.open_list[i]).f < self.node(#[trigger] self.open_list[j]).f
    }

    /// The index in the open list of the cell to expand next.
    pub open spec fn lowest(self) -> int {
        choose|i: int| self.is_lowest(i)
    }
}

/// A search under way: the lists and the nodes, and the route table that
/// files every cell reached under the cell it was reached from.
pub struct SearchView {
    pub view: AStarView,
    pub links: Map<u64, (i32, i32)>,
}

/// The search that has just begun: the lists emptied, the start put into
/// the open list, the goal set and the start's estimate renewed towards it,
/// and nothing in the route table.
pub open spec fn begun(v: AStarView, start: (i32, i32), goal: (i32, i32)) -> SearchView {
    let cleared = AStarView { open_list: seq![start], closed_list: Seq::empty(), ..v };
    SearchView {
        view: AStarView { current_goal: Some(goal), nodes: cleared.aimed_at(goal), ..cleared },
        links: Map::empty(),
    }
}

/// The search after a look at the `k`-th of the eight cells around
/// `current`. Nothing changes if that cell was expanded, lies off the
/// board, or is in the open list at a cost no higher than the way through
/// `current` would give it. Otherwise the cell is scored with that cost,
/// filed under `current`, and put into the open list if it is not there.
pub open spec fn relaxed(s: SearchView, current: (i32, i32), k: int, goal: (i32, i32)) -> SearchView {
    let v = s.view;
    let cell = spec_find_neighbors(current, v.width, v.height)[k];
    let cost = capped_sum(v.node(current).g, 1);
    if v.closed_list.contains(cell) || !v.contains(cell) || (v.open_list.contains(cell) && !(cost < v.node(
        cell,
    ).g)) {
        s
    } else {
        SearchView {
            view: AStarView {
                nodes: v.nodes.update(
                    cell.0 as int,
                    v.nodes[cell.0 as int].update(cell.1 as int, v.node(cell).reached(cost, goal)),
                ),
                open_list: if v.open_list.contains(cell) {
                    v.open_list
                } else {
                    v.open_list.push(cell)
                },
                ..v
            },
            links: s.links.insert(cell_key(cell), current),
        }
    }
}

/// The search after a look at the first `k` cells around `current`, one
/// after the other.
pub open spec fn expanded(s: SearchView, current: (i32, i32), k: nat, goal: (i32, i32)) -> SearchView
    decreases k,
{
    if k == 0 {
        s
    } else {
        relaxed(expanded(s, current, (k - 1) as nat, goal), current, k - 1, goal)
    }
}

/// Whether the search has a cell to expand: the open list is not empty, and
/// the cell to expand next is not the goal.
pub open spec fn running(s: SearchView, goal: (i32, i32)) -> bool {
    s.view.open_list.len() > 0 && s.view.open_list[s.view.lowest()] != goal
}

/// The search after one round: the cell to expand next moves from the open
/// list to the end of the closed list, and the eight cells around it are
/// looked at.
pub open spec fn advanced(s: SearchView, goal: (i32, i32)) -> SearchView {
    let at = s.view.lowest();
    let current = s.view.open_list[at];
    expanded(
        SearchView {
            view: AStarView {
                open_list: s.view.open_list.remove(at),
                closed_list: s.view.closed_list.push(current),
                ..s.view
            },
            links: s.links,
        },
        current,
        8,
        goal,
    )
}

/// The search after `n` rounds, or after as many as it runs for, if those
/// are fewer.
pub open spec fn after_rounds(s: SearchView, n: nat, goal: (i32, i32)) -> SearchView
    decreases n,
{
    if n == 0 {
        s
    } else {
        let before = after_rounds(s, (n - 1) as nat, goal);
        if running(before, goal) {
            advanced(before, goal)
        } else {
            before
        }
    }
}

/// The search once it has stopped: the open list is empty, or the cell to
/// expand next is the goal.
pub open spec fn stopped(s: SearchView, goal: (i32, i32)) -> SearchView {
    after_rounds(s, choose|n: nat| !running(after_rounds(s, n, goal), goal), goal)
}

/// The cells from `c` back to `start`, each followed by the cell that the
/// route table files it under, over at most `limit` entries of the table.
pub open spec fn trail(links: Map<u64, (i32, i32)>, start: (i32, i32), c: (i32, i32), limit: nat) -> Seq<
    (i32, i32),
>
    decreases limit,
{
    if c == start || limit == 0 {
        seq![c]
    } else {
        seq![c] + trail(links, start, links[cell_key(c)], (limit - 1) as nat)
    }
}

/// The path that a search from `start` to `goal` finds, on a board whose
/// nodes are as `v` has them: none if the search stops with the open list
/// empty, else the trail from the goal back to the start, turned round.
///
/// Of the open cells the one with the least estimated total is expanded
/// first, of several such the one put in first. The nodes enter only by
/// the cost that an earlier search left in the node of `start`.
pub open spec fn spec_find_path(v: AStarView, start: (i32, i32), goal: (i32, i32)) -> Option<Seq<(i32, i32)>> {
    let end = stopped(begun(v, start, goal), goal);
    if end.view.open_list.len() == 0 {
        None
    } else {
        Some(trail(end.links, start, goal, end.view.closed_list.len()).reverse())
    }
}

/// What a search from `start` to `goal` leaves behind: the lists and the
/// nodes as they were when it stopped, the goal taken out of the open list
/// if it was found.
pub open spec fn searched(v: AStarView, start: (i32, i32), goal: (i32, i32)) -> AStarView {
    let end = stopped(begun(v, start, goal), goal);
    if end.view.open_list.len() == 0 {
        end.view
    } else {
        AStarView { open_list: end.view.open_list.remove(end.view.lowest()), ..end.view }
    }
}

/// A look at a cell around `current` leaves the board, the closed list and
/// the goal as they are, and keeps every node with its cell. It touches no
/// node but that of the cell looked at, and no entry of the route table but
/// that cell's.
pub proof fn lemma_relaxed_touches_one_cell(s: SearchView, current: (i32, i32), k: int, goal: (i32, i32))
    requires
        s.view.wf(),
    ensures
        relaxed(s, current, k, goal).view.wf(),
        relaxed(s, current, k, goal).view.width == s.view.width,
        relaxed(s, current, k, goal).view.height == s.view.height,
        relaxed(s, current, k, goal).view.closed_list == s.view.closed_list,
        relaxed(s, current, k, goal).view.current_goal == s.view.current_goal,
        forall|d: (i32, i32)|
            d != spec_find_neighbors(current, s.view.width, s.view.height)[k] && s.view.contains(d) ==> #[trigger] relaxed(
                s,
                current,
                k,
                goal,
            ).view.node(d) == s.view.node(d),
        forall|key: u64|
            key != cell_key(spec_find_neighbors(current, s.view.width, s.view.height)[k]) ==> (#[trigger] relaxed(
                s,
                current,
                k,
                goal,
            ).links.contains_key(key)) == s.links.contains_key(key) && relaxed(s, current, k, goal).links[key]
                == s.links[key],
{
    let v = s.view;
    let cell = spec_find_neighbors(current, v.width, v.height)[k];
    let r = relaxed(s, current, k, goal);
    if r != s {
        assert(v.contains(cell));
        assert(v.nodes[cell.0 as int].len() == v.height);
        assert forall|c: int, row: int| 0 <= c < v.width && 0 <= row < v.height implies {
            &&& (#[trigger] r.view.nodes[c][row]).pos == (c as i32, row as i32)
            &&& r.view.nodes[c][row].neighbors@ == spec_find_neighbors((c as i32, row as i32), v.width, v.height)
        } by {
            assert(v.nodes[c][row].pos == (c as i32, row as i32));
        }
        assert forall|c: int| 0 <= c < v.width implies (#[trigger] r.view.nodes[c]).len() == v.height by {
            assert(v.nodes[c].len() == v.height);
        }
    }
}

/// A look at a cell of the board that is in neither list scores it with
/// the cost of the way through `current`, files it under `current`, and
/// puts it at the end of the open list.
pub proof fn lemma_relaxed_reaches_new_cell(s: SearchView, current: (i32, i32), k: int, goal: (i32, i32))
    requires
        s.view.wf(),
        s.view.contains(spec_find_neighbors(current, s.view.width, s.view.height)[k]),
        !s.view.closed_list.contains(spec_find_neighbors(current, s.view.width, s.view.height)[k]),
        !s.view.open_list.contains(spec_find_neighbors(current, s.view.width, s.view.height)[k]),
    ensures
        ({
            let cell = spec_find_neighbors(current, s.view.width, s.view.height)[k];
            let r = relaxed(s, current, k, goal);
            &&& r.view.open_list == s.view.open_list.push(cell)
            &&& r.view.node(cell) == s.view.node(cell).reached(capped_sum(s.view.node(current).g, 1), goal)
            &&& r.links.contains_key(cell_key(cell))
            &&& r.links[cell_key(cell)] == current
        }),
{
    let v = s.view;
    let cell = spec_find_neighbors(current, v.width, v.height)[k];
    assert(v.nodes[cell.0 as int].len() == v.height);
}

/// A look at a cell that was expanded, lies off the board, or is in the
/// open list at a cost no higher than the way through `current` would give
/// it, changes nothing.
pub proof fn lemma_relaxed_passes(s: SearchView, current: (i32, i32), k: int, goal: (i32, i32))
    requires
        ({
            let cell = spec_find_neighbors(current, s.view.width, s.view.height)[k];
            ||| s.view.closed_list.contains(cell)
            ||| !s.view.contains(cell)
            ||| s.view.open_list.contains(cell) && capped_sum(s.view.node(current).g, 1) >= s.view.node(cell).g
        }),
    ensures
        relaxed(s, current, k, goal) == s,
{
}

/// At most one cell of the open list is the one to expand next.
pub proof fn lemma_lowest_is_unique(v: AStarView, i: int)
    requires
        v.is_lowest(i),
    ensures
        v.lowest() == i,
{
    let j = v.lowest();
    assert(v.is_lowest(j));
    if i < j {
        assert(v.node(v.open_list[j]).f < v.node(v.open_list[i]).f);
        assert(v.node(v.open_list[i]).f <= v.node(v.open_list[j]).f);
    } else if j < i {
        assert(v.node(v.open_list[i]).f < v.node(v.open_list[j]).f);
        assert(v.node(v.open_list[j]).f <= v.node(v.open_list[i]).f);
    }
}

/// A search that has stopped after `a` rounds is the same after any number
/// of rounds from `a` on.
pub proof fn lemma_stopped_search_stays(s: SearchView, a: nat, b: nat, goal: (i32, i32))
    requires
        !running(after_rounds(s, a, goal), goal),
        a <= b,
    ensures
        after_rounds(s, b, goal) == after_rounds(s, a, goal),
    decreases b,
{
    if a < b {
        lemma_stopped_search_stays(s, a, (b - 1) as nat, goal);
    }
}

/// A search that has stopped after `n` rounds has stopped as it is then.
pub proof fn lemma_search_stops_once(s: SearchView, n: nat, goal: (i32, i32))
    requires
        !running(after_rounds(s, n, goal), goal),
    ensures
        stopped(s, goal) == after_rounds(s, n, goal),
{
    let m = choose|m: nat| !running(after_rounds(s, m, goal), goal);
    if m <= n {
        lemma_stopped_search_stays(s, m, n, goal);
    } else {
        lemma_stopped_search_stays(s, n, m, goal);
    }
}

/// The `j`-th of the eight cells around `c`.
spec fn around(c: (i32, i32), j: int, width: i32, height: i32) -> (i32, i32) {
    spec_find_neighbors(c, width, height)[j]
}

/// Whether every occurrence of `c` in `closed` comes after the index `i`.
spec fn before_all(closed: Seq<(i32, i32)>, i: int, c: (i32, i32)) -> bool {
    forall|j: int| 0 <= j < closed.len() && closed[j] == c ==> i < j
}

/// Whether `p` was expanded before `c` was, if `c` was at all.
spec fn precedes(closed: Seq<(i32, i32)>, p: (i32, i32), c: (i32, i32)) -> bool {
    exists|i: int| 0 <= i < closed.len() && closed[i] == p && before_all(closed, i, c)
}

/// Whether every entry of the route table leads one move back, to a cell
/// that was expanded earlier.
spec fn links_lead_back(closed: Seq<(i32, i32)>, links: Map<u64, (i32, i32)>, width: i32, height: i32) -> bool {
    forall|c: (i32, i32)| #[trigger]
        links.contains_key(cell_key(c)) ==> is_step(links[cell_key(c)], c, width, height) && precedes(
            closed,
            links[cell_key(c)],
            c,
        )
}

/// Whether every cell that was reached, but the start, has an entry in the
/// route table.
spec fn all_linked(
    open: Seq<(i32, i32)>,
    closed: Seq<(i32, i32)>,
    links: Map<u64, (i32, i32)>,
    start: (i32, i32),
) -> bool {
    forall|c: (i32, i32)|
        (open.contains(c) || closed.contains(c)) && c != start ==> #[trigger] links.contains_key(cell_key(c))
}

/// Whether the cells around the expanded cells were all reached: all eight
/// for every expanded cell but the last, the first `k` for the last.
spec fn frontier_reached(
    open: Seq<(i32, i32)>,
    closed: Seq<(i32, i32)>,
    k: int,
    width: i32,
    height: i32,
) -> bool {
    forall|i: int, j: int|
        0 <= i < closed.len() && 0 <= j < 8 && (i < closed.len() - 1 || j < k) && in_bounds(
            #[trigger] around(closed[i], j, width, height),
            width,
            height,
        ) ==> closed.contains(around(closed[i], j, width, height)) || open.contains(
            around(closed[i], j, width, height),
        )
}

/// What holds of a search under way from `start` to `goal`, while the
/// first `k` cells around the cell expanded last have been looked at.
spec fn searching(
    open: Seq<(i32, i32)>,
    closed: Seq<(i32, i32)>,
    links: Map<u64, (i32, i32)>,
    start: (i32, i32),
    goal: (i32, i32),
    k: int,
    width: i32,
    height: i32,
) -> bool {
    &&& open.no_duplicates()
    &&& forall|i: int, j: int| 0 <= i < open.len() && 0 <= j < closed.len() ==> open[i] != closed[j]
    &&& forall|j: int| 0 <= j < closed.len() ==> in_bounds(#[trigger] closed[j], width, height) && closed[j] != goal
    &&& in_bounds(start, width, height) || start == goal
    &&& closed.len() == 0 ==> open.len() == 1 && open[0] == start
    &&& closed.len() > 0 ==> closed[0] == start
    &&& forall|i: int| 0 <= i < open.len() ==> in_bounds(#[trigger] open[i], width, height) || closed.len() == 0
    &&& open.contains(start) || closed.contains(start)
    &&& frontier_reached(open, closed, k, width, height)
    &&& links_lead_back(closed, links, width, height)
    &&& all_linked(open, closed, links, start)
}

/// A search that has only put the start into the open list is in order.
proof fn lemma_search_begins(start: (i32, i32), goal: (i32, i32), width: i32, height: i32)
    requires
        in_bounds(start, width, height) || start == goal,
    ensures
        searching(seq![start], Seq::empty(), Map::empty(), start, goal, 8, width, height),
{
    let open = seq![start];
    assert(open[0] == start);
    assert(open.contains(start));
    assert forall|c: (i32, i32)|
        (open.contains(c) || Seq::<(i32, i32)>::empty().contains(c)) && c != start implies #[trigger] Map::<
        u64,
        (i32, i32),
    >::empty().contains_key(cell_key(c)) by {
        if open.contains(c) {
            let i = choose|i: int| 0 <= i < open.len() && open[i] == c;
        }
    }
}

/// Taking the cell at index `at` out of the open list and expanding it
/// keeps the search in order, with none of the cells around it looked at.
proof fn lemma_search_expands(
    open: Seq<(i32, i32)>,
    closed: Seq<(i32, i32)>,
    links: Map<u64, (i32, i32)>,
    start: (i32, i32),
    goal: (i32, i32),
    at: int,
    width: i32,
    height: i32,
)
    requires
        searching(open, closed, links, start, goal, 8, width, height),
        0 <= at < open.len(),
        open[at] != goal,
    ensures
        searching(open.remove(at), closed.push(open[at]), links, start, goal, 0, width, height),
        !closed.contains(open[at]),
        in_bounds(open[at], width, height),
{
    let current = open[at];
    let open2 = open.remove(at);
    let closed2 = closed.push(current);
    assert(closed2[closed.len() as int] == current);
    // membership after the move
    assert forall|c: (i32, i32)| open.contains(c) implies open2.contains(c) || c == current by {
        let i = choose|i: int| 0 <= i < open.len() && open[i] == c;
        if i < at {
            assert(open2[i] == c);
        } else if i > at {
            assert(open2[i - 1] == c);
        }
    }
    assert forall|c: (i32, i32)| open2.contains(c) implies open.contains(c) && c != current by {
        let i = choose|i: int| 0 <= i < open2.len() && open2[i] == c;
        if i < at {
            assert(open[i] == c);
        } else {
            assert(open[i + 1] == c);
        }
    }
    assert forall|c: (i32, i32)| closed.contains(c) implies closed2.contains(c) by {
        let i = choose|i: int| 0 <= i < closed.len() && closed[i] == c;
        assert(closed2[i] == c);
    }
    assert forall|c: (i32, i32)| closed2.contains(c) implies closed.contains(c) || c == current by {
        let i = choose|i: int| 0 <= i < closed2.len() && closed2[i] == c;
        if i < closed.len() {
            assert(closed[i] == c);
        }
    }
    assert(closed2.contains(current));
    // no duplicates, apart, on the board
    assert(open2.no_duplicates()) by {
        assert forall|i: int, j: int| 0 <= i < open2.len() && 0 <= j < open2.len() && i != j implies open2[i]
            != open2[j] by {
            let a = if i < at { i } else { i + 1 };
            let b = if j < at { j } else { j + 1 };
            assert(open2[i] == open[a] && open2[j] == open[b]);
        }
    }
    assert forall|i: int, j: int| 0 <= i < open2.len() && 0 <= j < closed2.len() implies open2[i] != closed2[j] by {
        assert(open2.contains(open2[i]));
        if j < closed.len() {
            let a = if i < at { i } else { i + 1 };
            assert(open2[i] == open[a]);
        }
    }
    assert forall|i: int| 0 <= i < open2.len() implies in_bounds(#[trigger] open2[i], width, height) by {
        let a = if i < at { i } else { i + 1 };
        assert(open2[i] == open[a]);
    }
    if closed.contains(current) {
        let j = choose|j: int| 0 <= j < closed.len() && closed[j] == current;
        assert(open[at] != closed[j]);
    }
    // the frontier
    assert forall|i: int, j: int|
        0 <= i < closed2.len() && 0 <= j < 8 && (i < closed2.len() - 1 || j < 0) && in_bounds(
            #[trigger] around(closed2[i], j, width, height),
            width,
            height,
        ) implies closed2.contains(around(closed2[i], j, width, height)) || open2.contains(
        around(closed2[i], j, width, height),
    ) by {
        assert(closed2[i] == closed[i]);
        let n = around(closed[i], j, width, height);
        assert(closed.contains(n) || open.contains(n));
    }
    // the route table
    assert forall|c: (i32, i32)| #[trigger] links.contains_key(cell_key(c)) implies is_step(
        links[cell_key(c)],
        c,
        width,
        height,
    ) && precedes(closed2, links[cell_key(c)], c) by {
        let p = links[cell_key(c)];
        assert(precedes(closed, p, c));
        let i = choose|i: int| 0 <= i < closed.len() && closed[i] == p && before_all(closed, i, c);
        assert(closed2[i] == p);
        assert forall|j: int| 0 <= j < closed2.len() && closed2[j] == c implies i < j by {
            if j < closed.len() {
                assert(closed[j] == c);
            }
        }
        assert(before_all(closed2, i, c));
    }
    assert forall|c: (i32, i32)| (open2.contains(c) || closed2.contains(c)) && c != start implies #[trigger] links.contains_key(
        cell_key(c),
    ) by {
        assert(open.contains(c) || closed.contains(c));
    }
}

/// Once the open list is empty, no path leads from the start to the goal.
proof fn lemma_search_exhausted(
    closed: Seq<(i32, i32)>,
    links: Map<u64, (i32, i32)>,
    start: (i32, i32),
    goal: (i32, i32),
    width: i32,
    height: i32,
)
    requires
        searching(Seq::empty(), closed, links, start, goal, 8, width, height),
    ensures
        forall|path: Seq<(i32, i32)>| !is_path(path, start, goal, width, height),
{
    assert forall|path: Seq<(i32, i32)>| !is_path(path, start, goal, width, height) by {
        if is_path(path, start, goal, width, height) {
            lemma_path_stays_closed(closed, links, start, goal, width, height, path, path.len() - 1);
            let j = choose|j: int| 0 <= j < closed.len() && closed[j] == path.last();
            assert(closed[j] != goal);
        }
    }
}

/// Once the open list is empty, every cell of a path from the start was
/// expanded.
proof fn lemma_path_stays_closed(
    closed: Seq<(i32, i32)>,
    links: Map<u64, (i32, i32)>,
    start: (i32, i32),
    goal: (i32, i32),
    width: i32,
    height: i32,
    path: Seq<(i32, i32)>,
    k: int,
)
    requires
        searching(Seq::empty(), closed, links, start, goal, 8, width, height),
        is_path(path, start, goal, width, height),
        0 <= k < path.len(),
    ensures
        closed.contains(path[k]),
    decreases k,
{
    let open = Seq::<(i32, i32)>::empty();
    if k == 0 {
        assert(!open.contains(start));
    } else {
        lemma_path_stays_closed(closed, links, start, goal, width, height, path, k - 1);
        let a = path[k - 1];
        let b = path[k];
        assert(is_step(a, b, width, height));
        let i = choose|i: int| 0 <= i < closed.len() && closed[i] == a;
        let nbs = spec_find_neighbors(a, width, height);
        let j = choose|j: int| 0 <= j < nbs.len() && nbs[j] == b;
        assert(around(closed[i], j, width, height) == b);
        assert(!open.contains(b));
    }
}

/// Looking at a cell around the cell expanded last that is off the board,
/// or was reached already, changes nothing.
proof fn lemma_search_passes(
    open: Seq<(i32, i32)>,
    closed: Seq<(i32, i32)>,
    links: Map<u64, (i32, i32)>,
    start: (i32, i32),
    goal: (i32, i32),
    k: int,
    width: i32,
    height: i32,
)
    requires
        searching(open, closed, links, start, goal, k, width, height),
        0 <= k < 8,
        closed.len() > 0,
        ({
            let cell = around(closed.last(), k, width, height);
            !in_bounds(cell, width, height) || closed.contains(cell) || open.contains(cell)
        }),
    ensures
        searching(open, closed, links, start, goal, k + 1, width, height),
{
}

/// Filing a cell around the cell expanded last under that cell, and adding
/// it to the open list if it is not there, keeps the search in order.
proof fn lemma_search_links(
    open: Seq<(i32, i32)>,
    closed: Seq<(i32, i32)>,
    links: Map<u64, (i32, i32)>,
    start: (i32, i32),
    goal: (i32, i32),
    k: int,
    width: i32,
    height: i32,
)
    requires
        searching(open, closed, links, start, goal, k, width, height),
        0 <= k < 8,
        closed.len() > 0,
        in_bounds(around(closed.last(), k, width, height), width, height),
        !closed.contains(around(closed.last(), k, width, height)),
    ensures
        ({
            let cell = around(closed.last(), k, width, height);
            searching(
                if open.contains(cell) {
                    open
                } else {
                    open.push(cell)
                },
                closed,
                links.insert(cell_key(cell), closed.last()),
                start,
                goal,
                k + 1,
                width,
                height,
            )
        }),
{
    let current = closed.last();
    let cell = around(current, k, width, height);
    let open2 = if open.contains(cell) {
        open
    } else {
        open.push(cell)
    };
    let links2 = links.insert(cell_key(cell), current);
    assert forall|c: (i32, i32)| open.contains(c) implies open2.contains(c) by {
        let i = choose|i: int| 0 <= i < open.len() && open[i] == c;
        assert(open2[i] == c);
    }
    assert(open2.contains(cell)) by {
        if !open.contains(cell) {
            assert(open2[open.len() as int] == cell);
        }
    }
    assert forall|c: (i32, i32)| open2.contains(c) implies open.contains(c) || c == cell by {
        let i = choose|i: int| 0 <= i < open2.len() && open2[i] == c;
        if i < open.len() {
            assert(open[i] == c);
        }
    }
    assert(open2.no_duplicates()) by {
        assert forall|i: int, j: int| 0 <= i < open2.len() && 0 <= j < open2.len() && i != j implies open2[i]
            != open2[j] by {
            if !open.contains(cell) {
                if i < open.len() && j < open.len() {
                } else if i < open.len() {
                    assert(open.contains(open[i]));
                } else if j < open.len() {
                    assert(open.contains(open[j]));
                }
            }
        }
    }
    assert forall|i: int, j: int| 0 <= i < open2.len() && 0 <= j < closed.len() implies open2[i] != closed[j] by {
        if i >= open.len() {
            assert(closed.contains(closed[j]));
        }
    }
    assert forall|i: int| 0 <= i < open2.len() implies in_bounds(#[trigger] open2[i], width, height) by {
        if i < open.len() {
            assert(open2[i] == open[i]);
        }
    }
    assert(frontier_reached(open2, closed, k + 1, width, height)) by {
        assert forall|i: int, j: int|
            0 <= i < closed.len() && 0 <= j < 8 && (i < closed.len() - 1 || j < k + 1) && in_bounds(
                #[trigger] around(closed[i], j, width, height),
                width,
                height,
            ) implies closed.contains(around(closed[i], j, width, height)) || open2.contains(
            around(closed[i], j, width, height),
        ) by {
            if i < closed.len() - 1 || j < k {
                let n = around(closed[i], j, width, height);
                assert(closed.contains(n) || open.contains(n));
            }
        }
    }
    assert(links_lead_back(closed, links2, width, height)) by {
        assert forall|c: (i32, i32)| #[trigger] links2.contains_key(cell_key(c)) implies is_step(
            links2[cell_key(c)],
            c,
            width,
            height,
        ) && precedes(closed, links2[cell_key(c)], c) by {
            if cell_key(c) == cell_key(cell) {
                lemma_key_is_injective(c, cell);
                assert(spec_find_neighbors(current, width, height)[k] == cell);
                assert(in_bounds(closed[closed.len() - 1], width, height));
                assert(before_all(closed, closed.len() - 1, cell)) by {
                    assert forall|j: int| 0 <= j < closed.len() && closed[j] == cell implies closed.len() - 1
                        < j by {
                        assert(closed.contains(cell));
                    }
                }
            } else {
                assert(links.contains_key(cell_key(c)));
            }
        }
    }
    assert(all_linked(open2, closed, links2, start)) by {
        assert forall|c: (i32, i32)| (open2.contains(c) || closed.contains(c)) && c != start implies #[trigger] links2.contains_key(
            cell_key(c),
        ) by {
            if c != cell {
                assert(open.contains(c) || closed.contains(c));
                assert(links.contains_key(cell_key(c)));
            }
        }
    }
}

/// The place of the cell `c` when the cells of a board of `height` rows
/// are counted column by column.
spec fn cell_index(c: (i32, i32), height: i32) -> int {
    c.0 * height + c.1
}

/// The place of a cell of the board is below the number of cells.
proof fn lemma_index_in_range(c: (i32, i32), width: i32, height: i32)
    requires
        in_bounds(c, width, height),
    ensures
        0 <= cell_index(c, height) < width * height,
{
    assert(0 <= c.0 * height <= (width - 1) * height) by (nonlinear_arith)
        requires
            0 <= c.0 <= width - 1,
            0 < height,
    ;
    assert((width - 1) * height == width * height - height) by (nonlinear_arith);
}

/// Two cells of the board with one place are one cell.
proof fn lemma_index_is_injective(a: (i32, i32), b: (i32, i32), width: i32, height: i32)
    requires
        in_bounds(a, width, height),
        in_bounds(b, width, height),
        cell_index(a, height) == cell_index(b, height),
    ensures
        a == b,
{
    if a.0 != b.0 {
        assert(false) by (nonlinear_arith)
            requires
                a.0 != b.0,
                a.0 * height + a.1 == b.0 * height + b.1,
                0 <= a.1 < height,
                0 <= b.1 < height,
        ;
    }
}

impl AStar {
    /// Sets the goal, and renews the estimates of the cells in the open
    /// list towards it.
    pub fn set_goal(&mut self, goal: (i32, i32))
        requires
            old(self).wf(),
        ensures
            final(self).wf(),
            final(self)@ == (AStarView {
                current_goal: Some(goal),
                nodes: old(self)@.aimed_at(goal),
                ..old(self)@
            }),
    {
        self.current_goal = Some(goal);
        let n = self.open_list.len();
        let ghost before = old(self)@;
        let mut i: usize = 0;
        while i < n
            invariant
                i <= n,
                n == before.open_list.len(),
                before == old(self)@,
                before.wf(),
                self.wf(),
                self@ == (AStarView { current_goal: Some(goal), nodes: self@.nodes, ..before }),
                forall|c: int, r: int|
                    0 <= c < before.width && 0 <= r < before.height ==> #[trigger] self@.nodes[c][r] == (if before.open_list.take(
                        i as int,
                    ).contains((c as i32, r as i32)) {
                        before.nodes[c][r].aimed_at(goal)
                    } else {
                        before.nodes[c][r]
                    }),
            decreases n - i,
        {
            let pos = self.open_list[i];
            let ghost seen = before.open_list.take(i as int);
            let ghost seen2 = before.open_list.take(i as int + 1);
            proof {
                assert(seen2[i as int] == pos);
                assert forall|c: (i32, i32)| seen2.contains(c) == (seen.contains(c) || c == pos) by {
                    if seen.contains(c) {
                        let j = choose|j: int| 0 <= j < seen.len() && seen[j] == c;
                        assert(seen2[j] == c);
                    }
                    if seen2.contains(c) {
                        let j = choose|j: int| 0 <= j < seen2.len() && seen2[j] == c;
                        if j < i {
                            assert(seen[j] == c);
                        }
                    }
                }
            }
            let scored = match self.get_node(pos) {
                Some(node) => Some(node.g),
                None => None,
            };
            if let Some(g) = scored {
                let ghost nodes = self@.nodes;
                self.reach(pos, g, goal);
                proof {
                    assert forall|c: int, r: int| 0 <= c < before.width && 0 <= r < before.height implies #[trigger] self@.nodes[c][r]
                        == (if seen2.contains((c as i32, r as i32)) {
                        before.nodes[c][r].aimed_at(goal)
                    } else {
                        before.nodes[c][r]
                    }) by {
                        assert(nodes[c].len() == before.height);
                        if c == pos.0 && r == pos.1 {
                            assert((c as i32, r as i32) == pos);
                        } else {
                            assert((c as i32, r as i32) != pos);
                            assert(self@.nodes[c][r] == nodes[c][r]);
                        }
                    }
                }
            } else {
                proof {
                    assert forall|c: int, r: int| 0 <= c < before.width && 0 <= r < before.height implies #[trigger] self@.nodes[c][r]
                        == (if seen2.contains((c as i32, r as i32)) {
                        before.nodes[c][r].aimed_at(goal)
                    } else {
                        before.nodes[c][r]
                    }) by {
                        assert((c as i32, r as i32) != pos);
                    }
                }
            }
            i += 1;
        }
        proof {
            assert(before.open_list.take(n as int) =~= before.open_list);
            assert(self@.nodes =~~= before.aimed_at(goal)) by {
                assert forall|c: int| 0 <= c < before.width implies #[trigger] self@.nodes[c] =~= before.aimed_at(
                    goal,
                )[c] by {
                    assert(self@.nodes[c].len() == before.height);
                    assert(before.nodes[c].len() == before.height);
                    assert forall|r: int| 0 <= r < before.height implies self@.nodes[c][r] == before.aimed_at(goal)[c][r] by {
                        assert(self@.nodes[c][r] == self@.nodes[c][r]);
                    }
                }
            }
        }
    }

    /// The index in the open list of the cell whose estimated total is
    /// least; of several such cells, the one that comes first.
    fn lowest_f_index(&self) -> (best: usize)
        requires
            self.wf(),
            self@.open_list.len() > 0,
            forall|i: int|
                0 <= i < self@.open_list.len() ==> self@.contains(#[trigger] self@.open_list[i])
                    || self@.open_list.len() == 1,
        ensures
            best < self@.open_list.len(),
            self@.is_lowest(best as int),
            best == self@.lowest(),
    {
        proof {
            if self@.open_list.len() == 1 {
                assert(self@.is_lowest(0));
                lemma_lowest_is_unique(self@, 0);
            }
        }
        let n = self.open_list.len();
        if n == 1 {
            return 0;
        }
        let mut best: usize = 0;
        let mut best_f: i64 = match self.get_node(self.open_list[0]) {
            Some(node) => node.f,
            None => 0,
        };
        let mut i: usize = 1;
        while i < n
            invariant
                self.wf(),
                n == self@.open_list.len(),
                n > 1,
                1 <= i <= n,
                best < i,
                forall|j: int| 0 <= j < n ==> self@.contains(#[trigger] self@.open_list[j]),
                best_f == self@.node(self@.open_list[best as int]).f,
                forall|j: int| 0 <= j < i ==> best_f <= self@.node(#[trigger] self@.open_list[j]).f,
                forall|j: int| 0 <= j < best ==> best_f < self@.node(#[trigger] self@.open_list[j]).f,
            decreases n - i,
        {
            let f = match self.get_node(self.open_list[i]) {
                Some(node) => node.f,
                None => 0,
            };
            if f < best_f {
                best = i;
                best_f = f;
            }
            i += 1;
        }
        proof {
            assert(self@.is_lowest(best as int));
            lemma_lowest_is_unique(self@, best as int);
        }
        best
    }

    /// Looks at the `k`-th cell around `current`, the cell expanded last:
    /// if it lies on the board, was not expanded, and is new or is reached
    /// more cheaply through `current`, it is scored, filed under `current`
    /// in the route table, and put into the open list.
    fn relax(
        &mut self,
        came_from: &mut HashMap<u64, (i32, i32)>,
        current: (i32, i32),
        k: usize,
        Ghost(start): Ghost<(i32, i32)>,
        goal: (i32, i32),
    )
        requires
            old(self).wf(),
            k < 8,
            old(self)@.closed_list.len() > 0,
            old(self)@.closed_list.last() == current,
            searching(
                old(self)@.open_list,
                old(self)@.closed_list,
                old(came_from)@,
                start,
                goal,
                k as int,
                old(self)@.width,
                old(self)@.height,
            ),
        ensures
            final(self).wf(),
            final(self)@.width == old(self)@.width,
            final(self)@.height == old(self)@.height,
            final(self)@.current_goal == old(self)@.current_goal,
            final(self)@.closed_list == old(self)@.closed_list,
            searching(
                final(self)@.open_list,
                final(self)@.closed_list,
                final(came_from)@,
                start,
                goal,
                k + 1,
                old(self)@.width,
                old(self)@.height,
            ),
            (SearchView { view: final(self)@, links: final(came_from)@ }) == relaxed(
                SearchView { view: old(self)@, links: old(came_from)@ },
                current,
                k as int,
                goal,
            ),
    {
        broadcast use vstd::std_specs::hash::group_hash_axioms;

        let ghost open = self@.open_list;
        let ghost closed = self@.closed_list;
        let ghost links = came_from@;
        assert(self@.contains(closed[closed.len() - 1]));
        let (neighbor_pos, current_g) = match self.get_node(current) {
            Some(node) => (node.neighbors[k], node.g),
            None => (current, 0),
        };
        assert(neighbor_pos == around(current, k as int, self@.width, self@.height));
        if list_contains(&self.closed_list, neighbor_pos) {
            proof {
                lemma_search_passes(open, closed, links, start, goal, k as int, self@.width, self@.height);
            }
            return ;
        }
        let tentative_g = add_capped(current_g, 1);
        let is_in_open_list = list_contains(&self.open_list, neighbor_pos);
        let is_better = match self.get_node(neighbor_pos) {
            Some(neighbor_node) => !is_in_open_list || tentative_g < neighbor_node.g,
            None => false,
        };
        if is_better {
            proof {
                lemma_search_links(open, closed, links, start, goal, k as int, self@.width, self@.height);
            }
            self.reach(neighbor_pos, tentative_g, goal);
            came_from.insert(key_of(neighbor_pos), current);
            if !list_contains(&self.open_list, neighbor_pos) {
                self.open_list.push(neighbor_pos);
            }
        } else {
            proof {
                lemma_search_passes(open, closed, links, start, goal, k as int, self@.width, self@.height);
            }
        }
    }
}

/// Follows the route table back from `goal` to `start` and returns the
/// cells passed, from `start` to `goal`. The table must lead every cell
/// one move back to a cell expanded earlier, `closed` being the cells
/// expanded, in order.
fn reconstruct_path(
    came_from: &HashMap<u64, (i32, i32)>,
    start: (i32, i32),
    goal: (i32, i32),
    Ghost(closed): Ghost<Seq<(i32, i32)>>,
    Ghost(width): Ghost<i32>,
    Ghost(height): Ghost<i32>,
) -> (path: Vec<(i32, i32)>)
    requires
        links_lead_back(closed, came_from@, width, height),
        forall|c: (i32, i32)| closed.contains(c) && c != start ==> #[trigger] came_from@.contains_key(cell_key(c)),
        goal == start || came_from@.contains_key(cell_key(goal)),
        !closed.contains(goal),
    ensures
        is_path(path@, start, goal, width, height),
        goal == start ==> path@ == seq![start],
        path@ == trail(came_from@, start, goal, closed.len()).reverse(),
{
    broadcast use vstd::std_specs::hash::group_hash_axioms;

    let mut back: Vec<(i32, i32)> = Vec::new();
    let mut current = goal;
    let ghost mut at: int = closed.len() as int;
    proof {
        assert(back@ + trail(came_from@, start, goal, closed.len()) =~= trail(came_from@, start, goal, closed.len()));
    }
    while current.0 != start.0 || current.1 != start.1
        invariant
            back@.len() + at <= closed.len(),
            trail(came_from@, start, goal, closed.len()) == back@ + trail(
                came_from@,
                start,
                current,
                (closed.len() - back@.len()) as nat,
            ),
            links_lead_back(closed, came_from@, width, height),
            forall|c: (i32, i32)|
                closed.contains(c) && c != start ==> #[trigger] came_from@.contains_key(cell_key(c)),
            goal == start || came_from@.contains_key(cell_key(goal)),
            !closed.contains(goal),
            0 <= at <= closed.len(),
            back@.len() == 0 ==> current == goal && at == closed.len(),
            back@.len() > 0 ==> at < closed.len() && closed[at] == current && back@[0] == goal && is_step(
                current,
                back@.last(),
                width,
                height,
            ),
            forall|k: int| 0 <= k < back@.len() - 1 ==> is_step(back@[k + 1], #[trigger] back@[k], width, height),
        decreases at,
    {
        let ghost cell = current;
        let ghost passed = back@;
        let ghost left = (closed.len() - back@.len()) as nat;
        assert(back@.len() > 0 ==> closed.contains(cell));
        assert(came_from@.contains_key(cell_key(cell)));
        back.push(current);
        let key = key_of(current);
        let parent = match came_from.get(&key) {
            Some(parent) => *parent,
            None => start,
        };
        proof {
            assert(parent == came_from@[cell_key(cell)]);
            assert(precedes(closed, parent, cell));
            let i = choose|i: int| 0 <= i < closed.len() && closed[i] == parent && before_all(closed, i, cell);
            if at < closed.len() {
                assert(closed[at] == cell);
            }
            assert(i < at);
            assert(left >= 1);
            assert(trail(came_from@, start, cell, left) == seq![cell] + trail(
                came_from@,
                start,
                parent,
                (left - 1) as nat,
            ));
            assert(passed + (seq![cell] + trail(came_from@, start, parent, (left - 1) as nat)) =~= passed.push(cell)
                + trail(came_from@, start, parent, (left - 1) as nat));
            at = i;
        }
        current = parent;
    }
    proof {
        assert(current == start);
        assert(back@ + seq![start] =~= back@.push(start));
    }
    back.push(start);
    assert(back@ == trail(came_from@, start, goal, closed.len()));
    let n = back.len();
    let mut path: Vec<(i32, i32)> = Vec::new();
    let mut i: usize = n;
    while i > 0
        invariant
            n == back@.len(),
            i <= n,
            path@.len() == n - i,
            forall|k: int| 0 <= k < path@.len() ==> path@[k] == back@[n - 1 - k],
        decreases i,
    {
        i -= 1;
        path.push(back[i]);
    }
    proof {
        assert(path@ =~= back@.reverse());
        assert(path@[0] == back@[n - 1]);
        assert(path@.last() == back@[0]);
        if goal == start {
            assert(path@ =~= seq![start]);
        }
        assert forall|k: int| 0 <= k < path@.len() - 1 implies is_step(#[trigger] path@[k], path@[k + 1], width, height) by {
            assert(path@[k] == back@[n - 1 - k]);
            assert(path@[k + 1] == back@[n - 2 - k]);
            let m = n - 2 - k;
            if m + 1 == n - 1 {
            } else {
                assert(is_step(back@[m + 1], back@[m], width, height));
            }
        }
    }
    path
}

impl AStar {
    /// Searches a path from `start` to `initial_goal`. If one exists, a
    /// path is returned: `start` first, `initial_goal` last, each cell one
    /// move from the cell before. If none exists, nothing is returned. The
    /// path from a cell to itself is that cell alone.
    ///
    /// Which path is returned, and what the search leaves in the lists and
    /// the nodes, is what [`spec_find_path`] and [`searched`] say: of two
    /// cells in the open list the one with the lower estimated total is
    /// expanded first, and of two with the same total the one that was put
    /// in first. The costs that earlier searches left in the nodes are not
    /// cleared.
    pub fn find_path(&mut self, start: (i32, i32), initial_goal: (i32, i32)) -> (found: Option<Vec<(i32, i32)>>)
        requires
            old(self).wf(),
            old(self)@.contains(start) || start == initial_goal,
        ensures
            final(self).wf(),
            final(self)@.width == old(self)@.width,
            final(self)@.height == old(self)@.height,
            final(self)@.current_goal == Some(initial_goal),
            start == initial_goal ==> (found matches Some(path) && path@ == seq![start]),
            match found {
                Some(path) => is_path(path@, start, initial_goal, old(self)@.width, old(self)@.height),
                None => forall|path: Seq<(i32, i32)>|
                    !is_path(path, start, initial_goal, old(self)@.width, old(self)@.height),
            },
            match found {
                Some(path) => spec_find_path(old(self)@, start, initial_goal) == Some(path@),
                None => spec_find_path(old(self)@, start, initial_goal) is None,
            },
            final(self)@ == searched(old(self)@, start, initial_goal),
    {
        let ghost width = self@.width;
        let ghost height = self@.height;
        let ghost init = begun(self@, start, initial_goal);
        self.reset_path();
        self.open_list.push(start);
        proof {
            assert(self@.open_list =~= seq![start]);
        }
        self.set_goal(initial_goal);
        let mut came_from: HashMap<u64, (i32, i32)> = HashMap::new();
        let ghost mut remaining: Set<int> = vstd::set_lib::set_int_range(0, width * height);
        let ghost mut rounds: nat = 0;
        proof {
            assert(self@ == init.view);
            assert(came_from@ =~= init.links);
            lemma_search_begins(start, initial_goal, width, height);
            vstd::set_lib::lemma_int_range(0, width * height);
            assert(self@.open_list =~= seq![start]);
            assert forall|c: (i32, i32)| in_bounds(c, width, height) implies remaining.contains(
                #[trigger] cell_index(c, height),
            ) by {
                lemma_index_in_range(c, width, height);
            }
        }
        while !self.open_list.is_empty()
            invariant
                self.wf(),
                width == old(self)@.width,
                height == old(self)@.height,
                self@.width == width,
                self@.height == height,
                self@.current_goal == Some(initial_goal),
                searching(self@.open_list, self@.closed_list, came_from@, start, initial_goal, 8, width, height),
                init == begun(old(self)@, start, initial_goal),
                (SearchView { view: self@, links: came_from@ }) == after_rounds(init, rounds, initial_goal),
                remaining.finite(),
                forall|c: (i32, i32)|
                    in_bounds(c, width, height) && !self@.closed_list.contains(c) ==> remaining.contains(
                        #[trigger] cell_index(c, height),
                    ),
            decreases remaining.len(),
        {
            let ghost open = self@.open_list;
            let ghost closed = self@.closed_list;
            let ghost before = SearchView { view: self@, links: came_from@ };
            let min_index = self.lowest_f_index();
            let current = self.open_list.remove(min_index);
            let goal = self.current_goal.unwrap();
            if current.0 == goal.0 && current.1 == goal.1 {
                proof {
                    assert(current == initial_goal);
                    assert(!running(before, initial_goal));
                    lemma_search_stops_once(init, rounds, initial_goal);
                    assert(open.contains(current));
                    if closed.contains(goal) {
                        let j = choose|j: int| 0 <= j < closed.len() && closed[j] == goal;
                        assert(closed[j] != goal);
                    }
                }
                return Some(reconstruct_path(&came_from, start, goal, Ghost(closed), Ghost(width), Ghost(height)));
            }
            self.closed_list.push(current);
            let ghost popped = SearchView { view: self@, links: came_from@ };
            proof {
                assert(current != initial_goal);
                assert(running(before, initial_goal));
                assert(advanced(before, initial_goal) == expanded(popped, current, 8, initial_goal));
                lemma_search_expands(open, closed, came_from@, start, initial_goal, min_index as int, width, height);
                let gone = cell_index(current, height);
                let ghost rest = remaining.remove(gone);
                assert forall|c: (i32, i32)|
                    in_bounds(c, width, height) && !self@.closed_list.contains(c) implies rest.contains(
                    #[trigger] cell_index(c, height),
                ) by {
                    assert(self@.closed_list[closed.len() as int] == current);
                    assert(c != current);
                    if cell_index(c, height) == gone {
                        lemma_index_is_injective(c, current, width, height);
                    }
                    if closed.contains(c) {
                        let j = choose|j: int| 0 <= j < closed.len() && closed[j] == c;
                        assert(self@.closed_list[j] == c);
                    }
                }
                assert(remaining.contains(gone));
                remaining = rest;
            }
            let mut k: usize = 0;
            while k < 8
                invariant
                    k <= 8,
                    self.wf(),
                    self@.width == width,
                    self@.height == height,
                    self@.current_goal == Some(initial_goal),
                    self@.closed_list.len() > 0,
                    self@.closed_list.last() == current,
                    self@.closed_list == closed.push(current),
                    searching(
                        self@.open_list,
                        self@.closed_list,
                        came_from@,
                        start,
                        initial_goal,
                        k as int,
                        width,
                        height,
                    ),
                    (SearchView { view: self@, links: came_from@ }) == expanded(
                        popped,
                        current,
                        k as nat,
                        initial_goal,
                    ),
                decreases 8 - k,
            {
                self.relax(&mut came_from, current, k, Ghost(start), initial_goal);
                k += 1;
            }
            proof {
                assert(after_rounds(init, rounds + 1, initial_goal) == advanced(before, initial_goal));
                rounds = rounds + 1;
            }
        }
        proof {
            assert(!running(SearchView { view: self@, links: came_from@ }, initial_goal));
            lemma_search_stops_once(init, rounds, initial_goal);
            assert(self@.open_list =~= Seq::<(i32, i32)>::empty());
            lemma_search_exhausted(self@.closed_list, came_from@, start, initial_goal, width, height);
        }
        None
    }
}

} // verus!

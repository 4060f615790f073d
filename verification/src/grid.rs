//! The toroidal cell grid and the evolution rule.
//!
//! The grid is a fixed `size x size` matrix of cells. Neighbor queries use
//! wraparound addressing in both axes, so every cell sees eight surrounding
//! offsets regardless of its position. A step decides every cell's next state
//! against the grid as it stood at the start of the generation, returns the
//! changed cells as an ordered diff, and only then applies the mutations.

use vstd::arithmetic::div_mod::{lemma_mod_multiples_vanish, lemma_mod_self_0, lemma_small_mod};
use vstd::prelude::*;

verus! {

/// Largest accepted grid edge length; keeps all index and seeding arithmetic
/// within `usize` on every target.
pub const GRID_MAX: usize = 4096;

/// A coordinate on the grid: `0 <= x, y < size`.
#[derive(Clone, Copy, Debug, PartialEq, Eq, Structural)]
pub struct Position {
    pub x: usize,
    pub y: usize,
}

/// A cell is either alive or dead; there is no third state.
#[derive(Clone, Copy, Debug, PartialEq, Eq, Structural)]
pub enum CellState {
    Alive,
    Dead,
}

/// One grid location: its fixed position and its current state. The position
/// never changes after construction; only the state mutates.
#[derive(Clone, Copy, Debug, PartialEq, Eq, Structural)]
pub struct Cell {
    pub position: Position,
    pub state: CellState,
}

impl Cell {
    pub fn new(state: CellState, position: Position) -> (cell: Cell)
        ensures
            cell.state == state,
            cell.position == position,
    {
        Cell { state, position }
    }
}

/// Wraparound decrement: the torus coordinate one step before `i`,
/// equal to `(i - 1) mod n` for `0 <= i < n`.
pub open spec fn wrap_dec(i: int, n: int) -> int {
    if i == 0 {
        n - 1
    } else {
        i - 1
    }
}

/// Wraparound increment: the torus coordinate one step after `i`,
/// equal to `(i + 1) mod n` for `0 <= i < n`.
pub open spec fn wrap_inc(i: int, n: int) -> int {
    if i + 1 == n {
        0
    } else {
        i + 1
    }
}

/// Wraparound addressing is true modulo arithmetic — always non-negative,
/// never a truncating remainder: for a coordinate in range, `wrap_dec` is
/// `(i - 1) mod n` and `wrap_inc` is `(i + 1) mod n`.
pub proof fn lemma_wrap_is_modulo(i: int, n: int)
    requires
        0 <= i < n,
    ensures
        wrap_dec(i, n) == (i - 1 + n) % n,
        wrap_inc(i, n) == (i + 1) % n,
{
    lemma_mod_multiples_vanish(1, i - 1, n);
    if i == 0 {
        assert((i - 1 + n) % n == (n - 1) % n);
        lemma_small_mod((n - 1) as nat, n as nat);
    } else {
        assert((i - 1 + n) % n == (i - 1) % n);
        lemma_small_mod((i - 1) as nat, n as nat);
    }
    if i + 1 == n {
        lemma_mod_self_0(n);
    } else {
        lemma_small_mod((i + 1) as nat, n as nat);
    }
}

/// 1 when the cell at `(x, y)` is alive, else 0.
pub open spec fn alive(g: Seq<Seq<CellState>>, x: int, y: int) -> int {
    if g[y][x] == CellState::Alive {
        1
    } else {
        0
    }
}

/// The eight positions that surround `(x, y)` on a torus of edge `n`, in
/// row-major scan order of their offsets.
pub open spec fn neighbor_positions(n: int, x: int, y: int) -> Seq<Position> {
    let xl = wrap_dec(x, n);
    let xr = wrap_inc(x, n);
    let yu = wrap_dec(y, n);
    let yd = wrap_inc(y, n);
    seq![
        Position { x: xl as usize, y: yu as usize },
        Position { x: x as usize, y: yu as usize },
        Position { x: xr as usize, y: yu as usize },
        Position { x: xl as usize, y: y as usize },
        Position { x: xr as usize, y: y as usize },
        Position { x: xl as usize, y: yd as usize },
        Position { x: x as usize, y: yd as usize },
        Position { x: xr as usize, y: yd as usize },
    ]
}

/// How many of the eight surrounding offsets of `(x, y)` hold a live cell,
/// with wraparound addressing; duplicates among the resolved positions (which
/// arise only when `n <= 2`) are counted once per offset.
pub open spec fn live_neighbors(g: Seq<Seq<CellState>>, n: int, x: int, y: int) -> int {
    let xl = wrap_dec(x, n);
    let xr = wrap_inc(x, n);
    let yu = wrap_dec(y, n);
    let yd = wrap_inc(y, n);
    alive(g, xl, yu) + alive(g, x, yu) + alive(g, xr, yu) + alive(g, xl, y) + alive(g, xr, y)
        + alive(g, xl, yd) + alive(g, x, yd) + alive(g, xr, yd)
}

/// The evolution rule: a cell's next state from its current state and its
/// live-neighbor count. Birth on exactly 3; survival on 2 or 3; death by
/// isolation (0 or 1) or overcrowding (4 and more).
pub open spec fn next_state(state: CellState, live_neighbor_count: int) -> CellState {
    match state {
        CellState::Alive => if 2 <= live_neighbor_count <= 3 {
            CellState::Alive
        } else {
            CellState::Dead
        },
        CellState::Dead => if live_neighbor_count == 3 {
            CellState::Alive
        } else {
            CellState::Dead
        },
    }
}

/// The next state of the cell at `(x, y)`, evaluated against the whole grid
/// as of the start of the generation.
pub open spec fn step_cell(g: Seq<Seq<CellState>>, n: int, x: int, y: int) -> CellState {
    next_state(g[y][x], live_neighbors(g, n, x, y))
}

/// The whole grid advanced one generation, synchronously.
pub open spec fn stepped(g: Seq<Seq<CellState>>, n: int) -> Seq<Seq<CellState>> {
    Seq::new(n as nat, |y: int| Seq::new(n as nat, |x: int| step_cell(g, n, x, y)))
}

/// The diff entry for the cell at `(x, y)`: empty when its state is kept,
/// else the position with its new state.
pub open spec fn transition_at(g: Seq<Seq<CellState>>, n: int, x: int, y: int) -> Seq<
    (Position, CellState),
> {
    if step_cell(g, n, x, y) == g[y][x] {
        Seq::empty()
    } else {
        seq![(Position { x: x as usize, y: y as usize }, step_cell(g, n, x, y))]
    }
}

/// The transitions of row `y` from column `x` rightward.
pub open spec fn changes_in_row_from(g: Seq<Seq<CellState>>, n: int, y: int, x: int) -> Seq<
    (Position, CellState),
>
    decreases n - x,
{
    if x < 0 || x >= n {
        Seq::empty()
    } else {
        transition_at(g, n, x, y) + changes_in_row_from(g, n, y, x + 1)
    }
}

/// The transitions of rows `y` and below, in row-major scan order.
pub open spec fn changes_from_row(g: Seq<Seq<CellState>>, n: int, y: int) -> Seq<
    (Position, CellState),
>
    decreases n - y,
{
    if y < 0 || y >= n {
        Seq::empty()
    } else {
        changes_in_row_from(g, n, y, 0) + changes_from_row(g, n, y + 1)
    }
}

/// The diff of one generation: every cell whose state changes, paired with
/// its new state, in row-major scan order. Unchanged cells are omitted.
pub open spec fn changes(g: Seq<Seq<CellState>>, n: int) -> Seq<(Position, CellState)> {
    changes_from_row(g, n, 0)
}

/// The entry for the cell at `(x, y)` in the live list: empty when it is
/// dead, else its position tagged alive.
pub open spec fn live_at(g: Seq<Seq<CellState>>, x: int, y: int) -> Seq<(Position, CellState)> {
    if g[y][x] == CellState::Alive {
        seq![(Position { x: x as usize, y: y as usize }, CellState::Alive)]
    } else {
        Seq::empty()
    }
}

/// The live cells of row `y` from column `x` rightward.
pub open spec fn live_in_row_from(g: Seq<Seq<CellState>>, n: int, y: int, x: int) -> Seq<
    (Position, CellState),
>
    decreases n - x,
{
    if x < 0 || x >= n {
        Seq::empty()
    } else {
        live_at(g, x, y) + live_in_row_from(g, n, y, x + 1)
    }
}

/// The live cells of rows `y` and below, in row-major scan order.
pub open spec fn live_from_row(g: Seq<Seq<CellState>>, n: int, y: int) -> Seq<
    (Position, CellState),
>
    decreases n - y,
{
    if y < 0 || y >= n {
        Seq::empty()
    } else {
        live_in_row_from(g, n, y, 0) + live_from_row(g, n, y + 1)
    }
}

/// Every live cell of the grid, tagged alive, in row-major scan order —
/// deduplicated and ordered by construction.
pub open spec fn live_cells(g: Seq<Seq<CellState>>, n: int) -> Seq<(Position, CellState)> {
    live_from_row(g, n, 0)
}

/// The ordered 2D container of cells, indexed `[y][x]`, of fixed edge length
/// `size` with exactly one cell per coordinate.
pub struct Grid {
    pub cells: Vec<Vec<Cell>>,
    pub size: usize,
}

impl View for Grid {
    type V = Seq<Seq<CellState>>;

    open spec fn view(&self) -> Seq<Seq<CellState>> {
        self.cells@.map_values(|row: Vec<Cell>| row@.map_values(|cell: Cell| cell.state))
    }
}

impl Grid {
    /// Exactly one cell per coordinate, each knowing its own position, and an
    /// edge length the index arithmetic can live with.
    pub open spec fn wf(&self) -> bool {
        &&& 1 <= self.size <= GRID_MAX
        &&& self.cells@.len() == self.size
        &&& forall|y: int|
            0 <= y < self.size ==> (#[trigger] self.cells@[y])@.len() == self.size
        &&& forall|y: int, x: int|
            0 <= y < self.size && 0 <= x < self.size ==> (#[trigger] self.cells@[y]@[x]).position
                == (Position { x: x as usize, y: y as usize })
    }

    pub fn size(&self) -> (n: usize)
        ensures
            n == self.size,
    {
        self.size
    }

    /// A fresh grid with every cell dead.
    pub fn new_dead(size: usize) -> (grid: Grid)
        requires
            1 <= size <= GRID_MAX,
        ensures
            grid.wf(),
            grid.size == size,
            grid@.len() == size,
            forall|y: int, x: int|
                0 <= y < size && 0 <= x < size ==> #[trigger] grid@[y][x] == CellState::Dead,
    {
        let mut cells: Vec<Vec<Cell>> = Vec::new();
        let mut y: usize = 0;
        while y < size
            invariant
                y <= size,
                1 <= size <= GRID_MAX,
                cells@.len() == y,
                forall|yy: int| 0 <= yy < y ==> (#[trigger] cells@[yy])@.len() == size,
                forall|yy: int, xx: int|
                    0 <= yy < y && 0 <= xx < size ==> (#[trigger] cells@[yy]@[xx]).position == (
                    Position { x: xx as usize, y: yy as usize }),
                forall|yy: int, xx: int|
                    0 <= yy < y && 0 <= xx < size ==> (#[trigger] cells@[yy]@[xx]).state
                        == CellState::Dead,
            decreases size - y,
        {
            let mut row: Vec<Cell> = Vec::new();
            let mut x: usize = 0;
            while x < size
                invariant
                    x <= size,
                    y < size,
                    row@.len() == x,
                    forall|xx: int|
                        0 <= xx < x ==> (#[trigger] row@[xx]).position == (Position {
                            x: xx as usize,
                            y: y as usize,
                        }),
                    forall|xx: int| 0 <= xx < x ==> (#[trigger] row@[xx]).state == CellState::Dead,
                decreases size - x,
            {
                row.push(Cell::new(CellState::Dead, Position { x, y }));
                x = x + 1;
            }
            cells.push(row);
            y = y + 1;
        }
        let grid = Grid { cells, size };
        grid
    }

    /// The state of the cell at `(x, y)`.
    pub fn state_at(&self, x: usize, y: usize) -> (state: CellState)
        requires
            self.wf(),
            x < self.size,
            y < self.size,
        ensures
            state == self@[y as int][x as int],
    {
        self.cells[y][x].state
    }

    /// Overwrites the state of the cell at `(x, y)`; everything else is kept.
    pub fn set_state(&mut self, x: usize, y: usize, state: CellState)
        requires
            old(self).wf(),
            x < old(self).size,
            y < old(self).size,
        ensures
            final(self).wf(),
            final(self).size == old(self).size,
            final(self)@ == old(self)@.update(
                y as int,
                old(self)@[y as int].update(x as int, state),
            ),
    {
        self.cells[y][x].state = state;
        proof {
            assert(self@ =~~= old(self)@.update(
                y as int,
                old(self)@[y as int].update(x as int, state),
            ));
        }
    }

    /// How many of the eight wraparound neighbor offsets of `(x, y)` hold a
    /// live cell.
    pub fn neighbor_count(&self, x: usize, y: usize) -> (count: usize)
        requires
            self.wf(),
            x < self.size,
            y < self.size,
        ensures
            count == live_neighbors(self@, self.size as int, x as int, y as int),
            count <= 8,
    {
        let n = self.size;
        let xl = if x == 0 { n - 1 } else { x - 1 };
        let xr = if x + 1 == n { 0 } else { x + 1 };
        let yu = if y == 0 { n - 1 } else { y - 1 };
        let yd = if y + 1 == n { 0 } else { y + 1 };
        proof {
            assert(xl == wrap_dec(x as int, n as int));
            assert(xr == wrap_inc(x as int, n as int));
            assert(yu == wrap_dec(y as int, n as int));
            assert(yd == wrap_inc(y as int, n as int));
        }
        let c0 = self.one_if_alive(xl, yu);
        let c1 = self.one_if_alive(x, yu);
        let c2 = self.one_if_alive(xr, yu);
        let c3 = self.one_if_alive(xl, y);
        let c4 = self.one_if_alive(xr, y);
        let c5 = self.one_if_alive(xl, yd);
        let c6 = self.one_if_alive(x, yd);
        let c7 = self.one_if_alive(xr, yd);
        c0 + c1 + c2 + c3 + c4 + c5 + c6 + c7
    }

    /// 1 when the cell at `(x, y)` is alive, else 0.
    fn one_if_alive(&self, x: usize, y: usize) -> (one: usize)
        requires
            self.wf(),
            x < self.size,
            y < self.size,
        ensures
            one == alive(self@, x as int, y as int),
    {
        match self.state_at(x, y) {
            CellState::Alive => 1,
            CellState::Dead => 0,
        }
    }
}

/// Whether one of the first `k` transitions of `t` names the position `(x, y)`.
spec fn touched(t: Seq<(Position, CellState)>, k: int, x: int, y: int) -> bool {
    exists|j: int|
        0 <= j < k && (#[trigger] t[j]).0 == (Position { x: x as usize, y: y as usize })
}

proof fn lemma_add_contains<A>(a: Seq<A>, b: Seq<A>, e: A)
    requires
        a.contains(e) || b.contains(e),
    ensures
        (a + b).contains(e),
{
    if a.contains(e) {
        let i = choose|i: int| 0 <= i < a.len() && a[i] == e;
        assert((a + b)[i] == e);
    } else {
        let i = choose|i: int| 0 <= i < b.len() && b[i] == e;
        assert((a + b)[a.len() + i] == e);
    }
}

/// Every entry of a row's diff suffix lies in that row at a column at or
/// after `x`, carries the cell's stepped state, and records a real change.
proof fn lemma_changes_in_row_elems(g: Seq<Seq<CellState>>, n: int, y: int, x: int)
    requires
        0 <= y < n,
        0 <= x,
        n <= usize::MAX,
    ensures
        forall|i: int|
            0 <= i < changes_in_row_from(g, n, y, x).len() ==> {
                let e = #[trigger] changes_in_row_from(g, n, y, x)[i];
                &&& x <= e.0.x < n
                &&& e.0.y == y
                &&& e.1 == step_cell(g, n, e.0.x as int, e.0.y as int)
                &&& e.1 != g[e.0.y as int][e.0.x as int]
            },
    decreases n - x,
{
    if x < n {
        lemma_changes_in_row_elems(g, n, y, x + 1);
        let head = transition_at(g, n, x, y);
        let tail = changes_in_row_from(g, n, y, x + 1);
        assert(changes_in_row_from(g, n, y, x) == head + tail);
        assert forall|i: int| 0 <= i < (head + tail).len() implies {
            let e = #[trigger] (head + tail)[i];
            &&& x <= e.0.x < n
            &&& e.0.y == y
            &&& e.1 == step_cell(g, n, e.0.x as int, e.0.y as int)
            &&& e.1 != g[e.0.y as int][e.0.x as int]
        } by {
            if i < head.len() {
                assert((head + tail)[i] == head[i]);
            } else {
                assert((head + tail)[i] == tail[i - head.len()]);
            }
        }
    }
}

/// Every entry of the diff from row `y` down lies in the grid, carries the
/// cell's stepped state, and records a real change.
proof fn lemma_changes_from_row_elems(g: Seq<Seq<CellState>>, n: int, y: int)
    requires
        0 <= y,
        n <= usize::MAX,
    ensures
        forall|i: int|
            0 <= i < changes_from_row(g, n, y).len() ==> {
                let e = #[trigger] changes_from_row(g, n, y)[i];
                &&& 0 <= e.0.x < n
                &&& y <= e.0.y < n
                &&& e.1 == step_cell(g, n, e.0.x as int, e.0.y as int)
                &&& e.1 != g[e.0.y as int][e.0.x as int]
            },
    decreases n - y,
{
    if y < n {
        lemma_changes_in_row_elems(g, n, y, 0);
        lemma_changes_from_row_elems(g, n, y + 1);
        let head = changes_in_row_from(g, n, y, 0);
        let tail = changes_from_row(g, n, y + 1);
        assert(changes_from_row(g, n, y) == head + tail);
        assert forall|i: int| 0 <= i < (head + tail).len() implies {
            let e = #[trigger] (head + tail)[i];
            &&& 0 <= e.0.x < n
            &&& y <= e.0.y < n
            &&& e.1 == step_cell(g, n, e.0.x as int, e.0.y as int)
            &&& e.1 != g[e.0.y as int][e.0.x as int]
        } by {
            if i < head.len() {
                assert((head + tail)[i] == head[i]);
            } else {
                assert((head + tail)[i] == tail[i - head.len()]);
            }
        }
    }
}

/// Every real change in row `y` at or after column `x` shows up in the
/// row's diff suffix.
proof fn lemma_changes_in_row_complete(g: Seq<Seq<CellState>>, n: int, y: int, x: int)
    requires
        0 <= y < n,
        0 <= x,
        n <= usize::MAX,
    ensures
        forall|xx: int|
            x <= xx < n && step_cell(g, n, xx, y) != g[y][xx]
                ==> #[trigger] changes_in_row_from(g, n, y, x).contains(
                (Position { x: xx as usize, y: y as usize }, step_cell(g, n, xx, y)),
            ),
    decreases n - x,
{
    if x < n {
        lemma_changes_in_row_complete(g, n, y, x + 1);
        let head = transition_at(g, n, x, y);
        let tail = changes_in_row_from(g, n, y, x + 1);
        assert(changes_in_row_from(g, n, y, x) == head + tail);
        assert forall|xx: int|
            x <= xx < n && step_cell(g, n, xx, y) != g[y][xx] implies #[trigger] changes_in_row_from(
            g,
            n,
            y,
            x,
        ).contains((Position { x: xx as usize, y: y as usize }, step_cell(g, n, xx, y))) by {
            let e = (Position { x: xx as usize, y: y as usize }, step_cell(g, n, xx, y));
            if xx == x {
                assert(head == seq![e]);
                assert(head[0] == e);
                lemma_add_contains(head, tail, e);
            } else {
                assert(tail.contains(e));
                lemma_add_contains(head, tail, e);
            }
        }
    }
}

/// Every real change in rows `y` and below shows up in the diff.
proof fn lemma_changes_from_row_complete(g: Seq<Seq<CellState>>, n: int, y: int)
    requires
        0 <= y,
        n <= usize::MAX,
    ensures
        forall|xx: int, yy: int|
            0 <= xx < n && y <= yy < n && step_cell(g, n, xx, yy) != g[yy][xx]
                ==> #[trigger] changes_from_row(g, n, y).contains(
                (Position { x: xx as usize, y: yy as usize }, step_cell(g, n, xx, yy)),
            ),
    decreases n - y,
{
    if 0 <= y < n {
        lemma_changes_in_row_complete(g, n, y, 0);
        lemma_changes_from_row_complete(g, n, y + 1);
        let head = changes_in_row_from(g, n, y, 0);
        let tail = changes_from_row(g, n, y + 1);
        assert(changes_from_row(g, n, y) == head + tail);
        assert forall|xx: int, yy: int|
            0 <= xx < n && y <= yy < n && step_cell(g, n, xx, yy) != g[yy][xx]
                implies #[trigger] changes_from_row(g, n, y).contains(
            (Position { x: xx as usize, y: yy as usize }, step_cell(g, n, xx, yy)),
        ) by {
            let e = (Position { x: xx as usize, y: yy as usize }, step_cell(g, n, xx, yy));
            if yy == y {
                assert(head.contains(e));
                lemma_add_contains(head, tail, e);
            } else {
                assert(tail.contains(e));
                lemma_add_contains(head, tail, e);
            }
        }
    }
}

impl Grid {
    /// Decides every cell against the grid as of the start of the
    /// generation and collects the changed cells in row-major scan order,
    /// without mutating anything.
    fn scan_transitions(&self) -> (transitions: Vec<(Position, CellState)>)
        requires
            self.wf(),
        ensures
            transitions@ == changes(self@, self.size as int),
    {
        let ghost g = self@;
        let ghost n = self.size as int;
        let size = self.size;
        let mut transitions: Vec<(Position, CellState)> = Vec::new();
        let mut y: usize = 0;
        while y < size
            invariant
                self.wf(),
                g == self@,
                n == self.size as int,
                size == self.size,
                y <= size,
                transitions@ + changes_from_row(g, n, y as int) == changes(g, n),
            decreases size - y,
        {
            let mut x: usize = 0;
            proof {
                assert(changes_from_row(g, n, y as int) == changes_in_row_from(g, n, y as int, 0)
                    + changes_from_row(g, n, y as int + 1));
                assert(transitions@ + changes_in_row_from(g, n, y as int, 0) + changes_from_row(
                    g,
                    n,
                    y as int + 1,
                ) =~= changes(g, n));
            }
            while x < size
                invariant
                    self.wf(),
                    g == self@,
                    n == self.size as int,
                    size == self.size,
                    y < size,
                    x <= size,
                    transitions@ + changes_in_row_from(g, n, y as int, x as int)
                        + changes_from_row(g, n, y as int + 1) == changes(g, n),
                decreases size - x,
            {
                let current = self.state_at(x, y);
                let count = self.neighbor_count(x, y);
                let next = evolve_cell(current, count);
                proof {
                    assert(changes_in_row_from(g, n, y as int, x as int) == transition_at(
                        g,
                        n,
                        x as int,
                        y as int,
                    ) + changes_in_row_from(g, n, y as int, x as int + 1));
                }
                if next != current {
                    transitions.push((Position { x, y }, next));
                    proof {
                        assert(transition_at(g, n, x as int, y as int) =~= seq![
                            (Position { x, y }, next),
                        ]);
                        assert(transitions@ + changes_in_row_from(g, n, y as int, x as int + 1)
                            + changes_from_row(g, n, y as int + 1) =~= changes(g, n));
                    }
                } else {
                    proof {
                        assert(transition_at(g, n, x as int, y as int) =~= Seq::<
                            (Position, CellState),
                        >::empty());
                        assert(transitions@ + changes_in_row_from(g, n, y as int, x as int + 1)
                            + changes_from_row(g, n, y as int + 1) =~= changes(g, n));
                    }
                }
                x = x + 1;
            }
            proof {
                assert(changes_in_row_from(g, n, y as int, size as int) =~= Seq::<
                    (Position, CellState),
                >::empty());
                assert(transitions@ + changes_from_row(g, n, y as int + 1) =~= changes(g, n));
            }
            y = y + 1;
        }
        proof {
            assert(changes_from_row(g, n, size as int) =~= Seq::<(Position, CellState)>::empty());
            assert(transitions@ =~= changes(g, n));
        }
        transitions
    }

    /// Applies a generation's buffered diff to the cells, after the full
    /// scan has completed.
    fn apply_transitions(&mut self, transitions: &Vec<(Position, CellState)>)
        requires
            old(self).wf(),
            transitions@ == changes(old(self)@, old(self).size as int),
        ensures
            final(self).wf(),
            final(self).size == old(self).size,
            final(self)@ == stepped(old(self)@, old(self).size as int),
    {
        let ghost g0 = old(self)@;
        let ghost n = old(self).size as int;
        proof {
            lemma_changes_from_row_elems(g0, n, 0);
            lemma_changes_from_row_complete(g0, n, 0);
        }
        let mut i: usize = 0;
        while i < transitions.len()
            invariant
                self.wf(),
                self.size == old(self).size,
                g0 == old(self)@,
                n == old(self).size as int,
                transitions@ == changes(g0, n),
                i <= transitions@.len(),
                forall|k: int|
                    0 <= k < transitions@.len() ==> {
                        let e = #[trigger] transitions@[k];
                        &&& 0 <= e.0.x < n
                        &&& 0 <= e.0.y < n
                        &&& e.1 == step_cell(g0, n, e.0.x as int, e.0.y as int)
                    },
                forall|xx: int, yy: int|
                    0 <= xx < n && 0 <= yy < n ==> #[trigger] self@[yy][xx] == if touched(
                        transitions@,
                        i as int,
                        xx,
                        yy,
                    ) {
                        step_cell(g0, n, xx, yy)
                    } else {
                        g0[yy][xx]
                    },
            decreases transitions@.len() - i,
        {
            let (position, state) = transitions[i];
            let ghost before = self@;
            self.set_state(position.x, position.y, state);
            proof {
                let px = position.x as int;
                let py = position.y as int;
                assert forall|xx: int, yy: int| 0 <= xx < n && 0 <= yy < n implies #[trigger] self@[yy][xx]
                    == if touched(transitions@, i as int + 1, xx, yy) {
                    step_cell(g0, n, xx, yy)
                } else {
                    g0[yy][xx]
                } by {
                    if xx == px && yy == py {
                        assert(self@[yy][xx] == state);
                        assert(transitions@[i as int].0 == (Position {
                            x: xx as usize,
                            y: yy as usize,
                        }));
                        assert(touched(transitions@, i as int + 1, xx, yy));
                    } else {
                        assert(self@[yy][xx] == before[yy][xx]);
                        if touched(transitions@, i as int + 1, xx, yy) {
                            let j = choose|j: int|
                                0 <= j < i as int + 1 && (#[trigger] transitions@[j]).0 == (
                                Position { x: xx as usize, y: yy as usize });
                            assert(j < i as int);
                            assert(touched(transitions@, i as int, xx, yy));
                        }
                    }
                }
            }
            i = i + 1;
        }
        proof {
            assert forall|xx: int, yy: int| 0 <= xx < n && 0 <= yy < n implies #[trigger] self@[yy][xx]
                == step_cell(g0, n, xx, yy) by {
                if !touched(transitions@, transitions@.len() as int, xx, yy) {
                    if step_cell(g0, n, xx, yy) != g0[yy][xx] {
                        let e = (
                            Position { x: xx as usize, y: yy as usize },
                            step_cell(g0, n, xx, yy),
                        );
                        assert(changes_from_row(g0, n, 0).contains(e));
                        let j = choose|j: int|
                            0 <= j < transitions@.len() && transitions@[j] == e;
                        assert((#[trigger] transitions@[j]).0 == e.0);
                        assert(touched(transitions@, transitions@.len() as int, xx, yy));
                    }
                }
            }
            assert forall|yy: int| 0 <= yy < n implies #[trigger] self@[yy] =~= stepped(g0, n)[yy] by {
                assert(self@[yy].len() == n);
            }
            assert(self@ =~~= stepped(g0, n));
        }
    }

    /// Collects every live cell, tagged alive, in row-major scan order: the
    /// full initial live set that is announced before the run loop starts.
    pub fn live_transitions(&self) -> (live: Vec<(Position, CellState)>)
        requires
            self.wf(),
        ensures
            live@ == live_cells(self@, self.size as int),
    {
        let ghost g = self@;
        let ghost n = self.size as int;
        let size = self.size;
        let mut live: Vec<(Position, CellState)> = Vec::new();
        let mut y: usize = 0;
        while y < size
            invariant
                self.wf(),
                g == self@,
                n == self.size as int,
                size == self.size,
                y <= size,
                live@ + live_from_row(g, n, y as int) == live_cells(g, n),
            decreases size - y,
        {
            let mut x: usize = 0;
            proof {
                assert(live_from_row(g, n, y as int) == live_in_row_from(g, n, y as int, 0)
                    + live_from_row(g, n, y as int + 1));
                assert(live@ + live_in_row_from(g, n, y as int, 0) + live_from_row(
                    g,
                    n,
                    y as int + 1,
                ) =~= live_cells(g, n));
            }
            while x < size
                invariant
                    self.wf(),
                    g == self@,
                    n == self.size as int,
                    size == self.size,
                    y < size,
                    x <= size,
                    live@ + live_in_row_from(g, n, y as int, x as int) + live_from_row(
                        g,
                        n,
                        y as int + 1,
                    ) == live_cells(g, n),
                decreases size - x,
            {
                proof {
                    assert(live_in_row_from(g, n, y as int, x as int) == live_at(g, x as int, y as int)
                        + live_in_row_from(g, n, y as int, x as int + 1));
                }
                let current = self.state_at(x, y);
                if matches!(current, CellState::Alive) {
                    live.push((Position { x, y }, CellState::Alive));
                    proof {
                        assert(live_at(g, x as int, y as int) =~= seq![
                            (Position { x, y }, CellState::Alive),
                        ]);
                        assert(live@ + live_in_row_from(g, n, y as int, x as int + 1)
                            + live_from_row(g, n, y as int + 1) =~= live_cells(g, n));
                    }
                } else {
                    proof {
                        assert(live_at(g, x as int, y as int) =~= Seq::<
                            (Position, CellState),
                        >::empty());
                        assert(live@ + live_in_row_from(g, n, y as int, x as int + 1)
                            + live_from_row(g, n, y as int + 1) =~= live_cells(g, n));
                    }
                }
                x = x + 1;
            }
            proof {
                assert(live_in_row_from(g, n, y as int, size as int) =~= Seq::<
                    (Position, CellState),
                >::empty());
                assert(live@ + live_from_row(g, n, y as int + 1) =~= live_cells(g, n));
            }
            y = y + 1;
        }
        proof {
            assert(live_from_row(g, n, size as int) =~= Seq::<(Position, CellState)>::empty());
            assert(live@ =~= live_cells(g, n));
        }
        live
    }

    /// Advances the grid one generation, synchronously: every cell's next
    /// state is decided against the start-of-generation grid, and the
    /// buffered diff is applied only after the full scan. Returns exactly
    /// the cells that changed, in row-major scan order.
    pub fn step(&mut self) -> (transitions: Vec<(Position, CellState)>)
        requires
            old(self).wf(),
        ensures
            final(self).wf(),
            final(self).size == old(self).size,
            transitions@ == changes(old(self)@, old(self).size as int),
            final(self)@ == stepped(old(self)@, old(self).size as int),
    {
        let transitions = self.scan_transitions();
        self.apply_transitions(&transitions);
        transitions
    }
}

/// The neighborhood of the corner cell `(0, 0)` wraps in both axes: its
/// offsets resolve to the opposite edges `(n-1, n-1)`, `(n-1, 0)` and
/// `(0, n-1)`, and a live cell at the opposite corner is counted among its
/// live neighbors.
pub proof fn lemma_corner_wraparound(g: Seq<Seq<CellState>>, n: int)
    requires
        1 <= n <= usize::MAX,
    ensures
        neighbor_positions(n, 0, 0).contains(
            Position { x: (n - 1) as usize, y: (n - 1) as usize },
        ),
        neighbor_positions(n, 0, 0).contains(Position { x: (n - 1) as usize, y: 0 }),
        neighbor_positions(n, 0, 0).contains(Position { x: 0, y: (n - 1) as usize }),
        alive(g, n - 1, n - 1) == 1 ==> live_neighbors(g, n, 0, 0) >= 1,
{
    let ps = neighbor_positions(n, 0, 0);
    assert(ps[0] == Position { x: (n - 1) as usize, y: (n - 1) as usize });
    assert(ps[3] == Position { x: (n - 1) as usize, y: 0 });
    assert(ps[1] == Position { x: 0, y: (n - 1) as usize });
}

proof fn lemma_unchanged_row_empty(g: Seq<Seq<CellState>>, n: int, y: int, x: int)
    requires
        0 <= y < n,
        forall|xx: int| 0 <= xx < n ==> #[trigger] step_cell(g, n, xx, y) == g[y][xx],
    ensures
        changes_in_row_from(g, n, y, x) == Seq::<(Position, CellState)>::empty(),
    decreases n - x,
{
    if 0 <= x < n {
        lemma_unchanged_row_empty(g, n, y, x + 1);
        assert(transition_at(g, n, x, y) == Seq::<(Position, CellState)>::empty());
        assert(changes_in_row_from(g, n, y, x) =~= Seq::<(Position, CellState)>::empty());
    }
}

proof fn lemma_unchanged_rows_empty(g: Seq<Seq<CellState>>, n: int, y: int)
    requires
        forall|xx: int, yy: int|
            0 <= xx < n && 0 <= yy < n ==> #[trigger] step_cell(g, n, xx, yy) == g[yy][xx],
    ensures
        changes_from_row(g, n, y) == Seq::<(Position, CellState)>::empty(),
    decreases n - y,
{
    if 0 <= y < n {
        lemma_unchanged_row_empty(g, n, y, 0);
        lemma_unchanged_rows_empty(g, n, y + 1);
        assert(changes_from_row(g, n, y) =~= Seq::<(Position, CellState)>::empty());
    }
}

/// A step of an all-dead grid is a no-op: no cell is born, so the diff a
/// step returns is the empty sequence.
pub proof fn lemma_all_dead_empty_diff(g: Seq<Seq<CellState>>, n: int)
    requires
        1 <= n,
        g.len() == n,
        forall|y: int| 0 <= y < n ==> (#[trigger] g[y]).len() == n,
        forall|y: int, x: int|
            0 <= y < n && 0 <= x < n ==> #[trigger] g[y][x] == CellState::Dead,
    ensures
        changes(g, n) == Seq::<(Position, CellState)>::empty(),
{
    assert forall|x: int, y: int| 0 <= x < n && 0 <= y < n implies #[trigger] step_cell(g, n, x, y)
        == g[y][x] by {
        let xl = wrap_dec(x, n);
        let xr = wrap_inc(x, n);
        let yu = wrap_dec(y, n);
        let yd = wrap_inc(y, n);
        assert(0 <= xl < n && 0 <= xr < n && 0 <= yu < n && 0 <= yd < n);
        assert(live_neighbors(g, n, x, y) == 0);
    }
    lemma_unchanged_rows_empty(g, n, 0);
}

/// The evolution rule as executable code, pinned to `next_state`.
pub fn evolve_cell(state: CellState, live_neighbor_count: usize) -> (next: CellState)
    ensures
        next == next_state(state, live_neighbor_count as int),
{
    match state {
        CellState::Alive => {
            if 2 <= live_neighbor_count && live_neighbor_count <= 3 {
                CellState::Alive
            } else {
                CellState::Dead
            }
        },
        CellState::Dead => {
            if live_neighbor_count == 3 {
                CellState::Alive
            } else {
                CellState::Dead
            }
        },
    }
}

} // verus!

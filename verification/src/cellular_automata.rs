//! A two-state nearest-neighbor cellular automaton on a rectangular grid.
//!
//! A cell with exactly 2 or 3 live neighbors survives; a dead cell with
//! exactly 3 live neighbors is born; every other cell is dead after a step.

use vstd::prelude::*;
use vstd::string::StringExecFns;

verus! {

/// One cell of the grid. `dead` mirrors `!alive` in every state the
/// library itself produces.
#[derive(Clone, Copy, PartialEq, Eq, Structural)]
pub struct Cell {
    pub alive: bool,
    pub dead: bool,
}

/// A rectangular grid of cells, stored row-major: the cell at column `x`,
/// row `y` sits at index `y * width + x`.
pub struct Grid {
    pub height: usize,
    pub width: usize,
    pub cells: Vec<Cell>,
}

/// Row-major index of the cell at column `x`, row `y`.
pub open spec fn cell_index(width: int, x: int, y: int) -> int {
    y * width + x
}

/// Whether `(x, y)` names a cell of a `width` by `height` grid.
pub open spec fn in_grid(width: int, height: int, x: int, y: int) -> bool {
    0 <= x < width && 0 <= y < height
}

/// Whether the cell at `(x, y)` is alive; positions off the grid count as
/// dead, so the same rule serves interior, edge and corner cells.
pub open spec fn alive_at(cells: Seq<Cell>, width: int, height: int, x: int, y: int) -> bool {
    in_grid(width, height, x, y) && cells[cell_index(width, x, y)].alive
}

/// The row-major index of `(x, y)` as a one-element sequence if the position
/// is on the grid, and the empty sequence otherwise.
pub open spec fn neighbor_index(width: int, height: int, x: int, y: int) -> Seq<int> {
    if in_grid(width, height, x, y) {
        seq![cell_index(width, x, y)]
    } else {
        seq![]
    }
}

/// The indices of the up-to-eight neighbors of `(x, y)` that lie on the grid,
/// ordered by column offset, then row offset.
pub open spec fn neighbor_indices(width: int, height: int, x: int, y: int) -> Seq<int> {
    neighbor_index(width, height, x - 1, y - 1) + neighbor_index(width, height, x - 1, y)
        + neighbor_index(width, height, x - 1, y + 1) + neighbor_index(width, height, x, y - 1)
        + neighbor_index(width, height, x, y + 1) + neighbor_index(width, height, x + 1, y - 1)
        + neighbor_index(width, height, x + 1, y) + neighbor_index(width, height, x + 1, y + 1)
}

/// 1 for a live cell, 0 for a dead one.
pub open spec fn live_as_count(b: bool) -> int {
    if b {
        1
    } else {
        0
    }
}

/// How many of the cells at `idxs` are alive.
pub open spec fn count_alive(cells: Seq<Cell>, idxs: Seq<int>) -> int
    decreases idxs.len(),
{
    if idxs.len() == 0 {
        0
    } else {
        count_alive(cells, idxs.drop_last()) + live_as_count(cells[idxs.last()].alive)
    }
}

/// How many of the eight positions around `(x, y)` hold a live cell.
pub open spec fn neighbor_count(cells: Seq<Cell>, width: int, height: int, x: int, y: int) -> int {
    live_as_count(alive_at(cells, width, height, x - 1, y - 1)) + live_as_count(
        alive_at(cells, width, height, x - 1, y),
    ) + live_as_count(alive_at(cells, width, height, x - 1, y + 1)) + live_as_count(
        alive_at(cells, width, height, x, y - 1),
    ) + live_as_count(alive_at(cells, width, height, x, y + 1)) + live_as_count(
        alive_at(cells, width, height, x + 1, y - 1),
    ) + live_as_count(alive_at(cells, width, height, x + 1, y)) + live_as_count(
        alive_at(cells, width, height, x + 1, y + 1),
    )
}

/// Whether the cell at `(x, y)` is alive after one synchronous step: a live
/// cell survives with exactly 2 or 3 live neighbors, a dead cell is born with
/// exactly 3, and every other cell is dead.
pub open spec fn next_alive(cells: Seq<Cell>, width: int, height: int, x: int, y: int) -> bool {
    if alive_at(cells, width, height, x, y) {
        neighbor_count(cells, width, height, x, y) == 2 || neighbor_count(
            cells,
            width,
            height,
            x,
            y,
        ) == 3
    } else {
        neighbor_count(cells, width, height, x, y) == 3
    }
}

/// One synchronous step of the whole grid: every in-grid cell is replaced
/// according to `next_alive`, computed from the same pre-step snapshot, with
/// `dead` kept as the negation of `alive`; cells stored beyond the grid's
/// area are left as they are.
pub open spec fn step_cells(cells: Seq<Cell>, width: int, height: int) -> Seq<Cell> {
    Seq::new(
        cells.len(),
        |i: int|
            if i < width * height {
                Cell {
                    alive: next_alive(cells, width, height, i % width, i / width),
                    dead: !next_alive(cells, width, height, i % width, i / width),
                }
            } else {
                cells[i]
            },
    )
}

/// The two characters that picture one cell: a live cell as `X `, a dead one
/// as `. `.
pub open spec fn cell_chars(alive: bool) -> Seq<char> {
    if alive {
        seq!['X', ' ']
    } else {
        seq!['.', ' ']
    }
}

/// Characters picturing the first `n` cells of row `y`.
pub open spec fn row_chars(cells: Seq<Cell>, width: int, height: int, y: int, n: int) -> Seq<char>
    decreases n,
{
    if n <= 0 {
        Seq::empty()
    } else {
        row_chars(cells, width, height, y, n - 1) + cell_chars(
            alive_at(cells, width, height, n - 1, y),
        )
    }
}

/// Characters picturing the first `m` rows of the grid, each row followed by
/// a line break.
pub open spec fn rows_chars(cells: Seq<Cell>, width: int, height: int, m: int) -> Seq<char>
    decreases m,
{
    if m <= 0 {
        Seq::empty()
    } else {
        rows_chars(cells, width, height, m - 1) + row_chars(cells, width, height, m - 1, width)
            + seq!['\n']
    }
}

/// Characters picturing the whole grid: every row in order, each followed by
/// a line break, and a blank line at the end.
pub open spec fn grid_chars(cells: Seq<Cell>, width: int, height: int) -> Seq<char> {
    rows_chars(cells, width, height, height) + seq!['\n']
}

/// `n` synchronous steps of the whole grid.
pub open spec fn run_steps(cells: Seq<Cell>, width: int, height: int, n: nat) -> Seq<Cell>
    decreases n,
{
    if n == 0 {
        cells
    } else {
        step_cells(run_steps(cells, width, height, (n - 1) as nat), width, height)
    }
}

impl Grid {
    /// Every in-grid position has its cell inside `cells`; functions that
    /// walk the grid require this.
    pub open spec fn grid_in_bounds(self) -> bool {
        self.width * self.height <= self.cells.len()
    }

    /// Row-major index of the cell at column `x`, row `y`.
    pub fn get_index(&self, x: usize, y: usize) -> (idx: usize)
        requires
            x < self.width,
            y < self.height,
            self.grid_in_bounds(),
        ensures
            idx == cell_index(self.width as int, x as int, y as int),
            idx < self.width * self.height,
    {
        proof {
            lemma_cell_index_bounds(self.width as int, self.height as int, x as int, y as int);
        }
        y * self.width + x
    }

    /// Row-major indices of the neighbors of `(x, y)` that lie on the grid,
    /// ordered by column offset, then row offset.
    pub fn get_neighbors(&self, x: usize, y: usize) -> (neighbors: Vec<usize>)
        requires
            x < self.width,
            y < self.height,
            self.grid_in_bounds(),
        ensures
            neighbors@.len() == neighbor_indices(
                self.width as int,
                self.height as int,
                x as int,
                y as int,
            ).len(),
            forall|i: int|
                0 <= i < neighbors@.len() ==> #[trigger] neighbors@[i] as int == neighbor_indices(
                    self.width as int,
                    self.height as int,
                    x as int,
                    y as int,
                )[i],
            forall|i: int|
                0 <= i < neighbors@.len() ==> #[trigger] neighbors@[i] < self.width * self.height,
    {
        let ghost w = self.width as int;
        let ghost h = self.height as int;
        let ghost xi = x as int;
        let ghost yi = y as int;
        let ghost to_int = |v: usize| v as int;
        let mut neighbors: Vec<usize> = Vec::new();
        if x >= 1 && y >= 1 {
            neighbors.push(self.get_index(x - 1, y - 1));
        }
        proof {
            assert(neighbors@.map_values(to_int) =~= neighbor_index(w, h, xi - 1, yi - 1));
        }
        if x >= 1 {
            neighbors.push(self.get_index(x - 1, y));
        }
        proof {
            assert(neighbors@.map_values(to_int) =~= neighbor_index(w, h, xi - 1, yi - 1)
                + neighbor_index(w, h, xi - 1, yi));
        }
        if x >= 1 && y + 1 < self.height {
            neighbors.push(self.get_index(x - 1, y + 1));
        }
        proof {
            assert(neighbors@.map_values(to_int) =~= neighbor_index(w, h, xi - 1, yi - 1)
                + neighbor_index(w, h, xi - 1, yi) + neighbor_index(w, h, xi - 1, yi + 1));
        }
        if y >= 1 {
            neighbors.push(self.get_index(x, y - 1));
        }
        proof {
            assert(neighbors@.map_values(to_int) =~= neighbor_index(w, h, xi - 1, yi - 1)
                + neighbor_index(w, h, xi - 1, yi) + neighbor_index(w, h, xi - 1, yi + 1)
                + neighbor_index(w, h, xi, yi - 1));
        }
        if y + 1 < self.height {
            neighbors.push(self.get_index(x, y + 1));
        }
        proof {
            assert(neighbors@.map_values(to_int) =~= neighbor_index(w, h, xi - 1, yi - 1)
                + neighbor_index(w, h, xi - 1, yi) + neighbor_index(w, h, xi - 1, yi + 1)
                + neighbor_index(w, h, xi, yi - 1) + neighbor_index(w, h, xi, yi + 1));
        }
        if x + 1 < self.width && y >= 1 {
            neighbors.push(self.get_index(x + 1, y - 1));
        }
        proof {
            assert(neighbors@.map_values(to_int) =~= neighbor_index(w, h, xi - 1, yi - 1)
                + neighbor_index(w, h, xi - 1, yi) + neighbor_index(w, h, xi - 1, yi + 1)
                + neighbor_index(w, h, xi, yi - 1) + neighbor_index(w, h, xi, yi + 1)
                + neighbor_index(w, h, xi + 1, yi - 1));
        }
        if x + 1 < self.width {
            neighbors.push(self.get_index(x + 1, y));
        }
        proof {
            assert(neighbors@.map_values(to_int) =~= neighbor_index(w, h, xi - 1, yi - 1)
                + neighbor_index(w, h, xi - 1, yi) + neighbor_index(w, h, xi - 1, yi + 1)
                + neighbor_index(w, h, xi, yi - 1) + neighbor_index(w, h, xi, yi + 1)
                + neighbor_index(w, h, xi + 1, yi - 1) + neighbor_index(w, h, xi + 1, yi));
        }
        if x + 1 < self.width && y + 1 < self.height {
            neighbors.push(self.get_index(x + 1, y + 1));
        }
        proof {
            assert(neighbors@.map_values(to_int) =~= neighbor_indices(w, h, xi, yi));
            assert forall|i: int| 0 <= i < neighbors@.len() implies #[trigger] neighbors@[i] as int
                == neighbor_indices(w, h, xi, yi)[i] by {
                assert(neighbors@.map_values(to_int)[i] == to_int(neighbors@[i]));
            }
        }
        neighbors
    }

    /// How many of the eight positions around `(x, y)` hold a live cell.
    pub fn count_alive_neighbors(&self, x: usize, y: usize) -> (count: usize)
        requires
            x < self.width,
            y < self.height,
            self.grid_in_bounds(),
        ensures
            count == neighbor_count(
                self.cells@,
                self.width as int,
                self.height as int,
                x as int,
                y as int,
            ),
    {
        let ghost w = self.width as int;
        let ghost h = self.height as int;
        let neighbors = self.get_neighbors(x, y);
        let ghost ns = neighbor_indices(w, h, x as int, y as int);
        let mut count: usize = 0;
        let n = neighbors.len();
        for i in 0..n
            invariant
                n == neighbors@.len(),
                n == ns.len(),
                forall|j: int| 0 <= j < n ==> #[trigger] neighbors@[j] as int == ns[j],
                forall|j: int| 0 <= j < n ==> #[trigger] neighbors@[j] < self.width * self.height,
                self.grid_in_bounds(),
                count == count_alive(self.cells@, ns.take(i as int)),
                count <= i,
        {
            proof {
                assert(ns.take(i + 1).drop_last() =~= ns.take(i as int));
            }
            if self.cells[neighbors[i]].alive {
                count = count + 1;
            }
        }
        proof {
            assert(ns.take(n as int) =~= ns);
            lemma_count_alive_neighbors(self.cells@, w, h, x as int, y as int);
        }
        count
    }

    /// A `height` by `width` grid holding `num_cells` cells, all alive.
    pub fn new(height: usize, width: usize, num_cells: usize) -> (grid: Grid)
        ensures
            grid.height == height,
            grid.width == width,
            grid.cells@.len() == num_cells,
            forall|i: int|
                0 <= i < num_cells ==> #[trigger] grid.cells@[i] == (Cell {
                    alive: true,
                    dead: false,
                }),
    {
        let mut cells: Vec<Cell> = Vec::with_capacity(num_cells);
        for k in 0..num_cells
            invariant
                cells@.len() == k,
                forall|i: int|
                    0 <= i < k ==> #[trigger] cells@[i] == (Cell { alive: true, dead: false }),
        {
            cells.push(Cell { alive: true, dead: false });
        }
        Grid { height, width, cells }
    }

    /// Replace every in-grid cell by its next state, computed for all cells
    /// from the same pre-step snapshot; cells beyond the grid's area keep
    /// their value.
    pub fn update_cells(&mut self)
        requires
            old(self).grid_in_bounds(),
        ensures
            final(self).width == old(self).width,
            final(self).height == old(self).height,
            final(self).cells@ == step_cells(
                old(self).cells@,
                old(self).width as int,
                old(self).height as int,
            ),
    {
        let ghost w = self.width as int;
        let ghost h = self.height as int;
        let ghost orig = self.cells@;
        let area = self.width * self.height;
        let n = self.cells.len();
        let mut new_cells: Vec<Cell> = Vec::with_capacity(n);
        for i in 0..n
            invariant
                self.width == old(self).width,
                self.height == old(self).height,
                self.cells@ == orig,
                orig == old(self).cells@,
                w == self.width as int,
                h == self.height as int,
                self.grid_in_bounds(),
                area == w * h,
                n == self.cells@.len(),
                new_cells@.len() == i,
                forall|j: int|
                    0 <= j < i ==> #[trigger] new_cells@[j] == step_cells(orig, w, h)[j],
        {
            if i < area {
                proof {
                    assert(self.width != 0) by (nonlinear_arith)
                        requires
                            i < w * h,
                            0 <= i,
                            w == self.width as int,
                            h == self.height as int,
                    ;
                }
                let x = i % self.width;
                let y = i / self.width;
                proof {
                    vstd::arithmetic::div_mod::lemma_fundamental_div_mod(i as int, w);
                    assert(y < self.height) by (nonlinear_arith)
                        requires
                            w > 0,
                            i as int == w * (y as int) + (x as int),
                            0 <= x < w,
                            i < w * h,
                            h == self.height as int,
                    ;
                    assert(cell_index(w, x as int, y as int) == i) by (nonlinear_arith)
                        requires
                            i as int == w * (y as int) + (x as int),
                            cell_index(w, x as int, y as int) == (y as int) * w + (x as int),
                    ;
                }
                let was_alive = self.cells[i].alive;
                let count = self.count_alive_neighbors(x, y);
                let next = if was_alive {
                    count == 2 || count == 3
                } else {
                    count == 3
                };
                new_cells.push(Cell { alive: next, dead: !next });
            } else {
                let kept = self.cells[i];
                new_cells.push(kept);
            }
        }
        proof {
            assert(new_cells@ =~= step_cells(orig, w, h));
        }
        self.cells = new_cells;
    }

    /// Picture the grid as text: one line per row, a live cell as `X `, a
    /// dead one as `. `, and a blank line at the end.
    pub fn grid_string(&self) -> (s: String)
        requires
            self.grid_in_bounds(),
        ensures
            s@ == grid_chars(self.cells@, self.width as int, self.height as int),
    {
        let ghost w = self.width as int;
        let ghost h = self.height as int;
        let mut s = String::new();
        for y in 0..self.height
            invariant
                w == self.width as int,
                h == self.height as int,
                self.grid_in_bounds(),
                s@ == rows_chars(self.cells@, w, h, y as int),
        {
            for x in 0..self.width
                invariant
                    w == self.width as int,
                    h == self.height as int,
                    y < self.height,
                    self.grid_in_bounds(),
                    s@ == rows_chars(self.cells@, w, h, y as int) + row_chars(
                        self.cells@,
                        w,
                        h,
                        y as int,
                        x as int,
                    ),
            {
                let idx = self.get_index(x, y);
                if self.cells[idx].alive {
                    s.append("X ");
                } else {
                    s.append(". ");
                }
                proof {
                    reveal_strlit("X ");
                    reveal_strlit(". ");
                    assert(s@ =~= rows_chars(self.cells@, w, h, y as int) + row_chars(
                        self.cells@,
                        w,
                        h,
                        y as int,
                        x + 1,
                    ));
                }
            }
            s.append("\n");
            proof {
                reveal_strlit("\n");
                assert(s@ =~= rows_chars(self.cells@, w, h, y + 1));
            }
        }
        s.append("\n");
        proof {
            reveal_strlit("\n");
            assert(s@ =~= grid_chars(self.cells@, w, h));
        }
        s
    }

    /// Advance the grid by `steps` synchronous steps.
    pub fn simulate(&mut self, steps: usize)
        requires
            old(self).grid_in_bounds(),
        ensures
            final(self).width == old(self).width,
            final(self).height == old(self).height,
            final(self).cells@ == run_steps(
                old(self).cells@,
                old(self).width as int,
                old(self).height as int,
                steps as nat,
            ),
    {
        let ghost w = old(self).width as int;
        let ghost h = old(self).height as int;
        for k in 0..steps
            invariant
                self.width == old(self).width,
                self.height == old(self).height,
                w == self.width as int,
                h == self.height as int,
                self.cells@ == run_steps(old(self).cells@, w, h, k as nat),
                self.cells@.len() == old(self).cells@.len(),
                self.grid_in_bounds(),
        {
            self.update_cells();
        }
    }
}

/// Counting live cells along concatenated index sequences counts each part.
proof fn lemma_count_alive_concat(cells: Seq<Cell>, a: Seq<int>, b: Seq<int>)
    ensures
        count_alive(cells, a + b) == count_alive(cells, a) + count_alive(cells, b),
    decreases b.len(),
{
    if b.len() == 0 {
        assert(a + b =~= a);
    } else {
        assert((a + b).drop_last() =~= a + b.drop_last());
        lemma_count_alive_concat(cells, a, b.drop_last());
    }
}

/// Counting live cells at one candidate position yields 1 exactly when the
/// position is on the grid and its cell is alive.
proof fn lemma_count_alive_single(cells: Seq<Cell>, w: int, h: int, x: int, y: int)
    ensures
        count_alive(cells, neighbor_index(w, h, x, y)) == live_as_count(alive_at(cells, w, h, x, y)),
{
    reveal_with_fuel(count_alive, 2);
    if in_grid(w, h, x, y) {
        let s = neighbor_index(w, h, x, y);
        assert(s.drop_last() =~= Seq::<int>::empty());
        assert(count_alive(cells, s) == count_alive(cells, Seq::<int>::empty()) + live_as_count(
            cells[s.last()].alive,
        ));
    }
}

/// Counting live cells along the neighbor-index list of `(x, y)` gives the
/// eight-position neighbor count.
proof fn lemma_count_alive_neighbors(cells: Seq<Cell>, w: int, h: int, x: int, y: int)
    ensures
        count_alive(cells, neighbor_indices(w, h, x, y)) == neighbor_count(cells, w, h, x, y),
{
    let n1 = neighbor_index(w, h, x - 1, y - 1);
    let n2 = neighbor_index(w, h, x - 1, y);
    let n3 = neighbor_index(w, h, x - 1, y + 1);
    let n4 = neighbor_index(w, h, x, y - 1);
    let n5 = neighbor_index(w, h, x, y + 1);
    let n6 = neighbor_index(w, h, x + 1, y - 1);
    let n7 = neighbor_index(w, h, x + 1, y);
    let n8 = neighbor_index(w, h, x + 1, y + 1);
    lemma_count_alive_concat(cells, n1 + n2 + n3 + n4 + n5 + n6 + n7, n8);
    lemma_count_alive_concat(cells, n1 + n2 + n3 + n4 + n5 + n6, n7);
    lemma_count_alive_concat(cells, n1 + n2 + n3 + n4 + n5, n6);
    lemma_count_alive_concat(cells, n1 + n2 + n3 + n4, n5);
    lemma_count_alive_concat(cells, n1 + n2 + n3, n4);
    lemma_count_alive_concat(cells, n1 + n2, n3);
    lemma_count_alive_concat(cells, n1, n2);
    lemma_count_alive_single(cells, w, h, x - 1, y - 1);
    lemma_count_alive_single(cells, w, h, x - 1, y);
    lemma_count_alive_single(cells, w, h, x - 1, y + 1);
    lemma_count_alive_single(cells, w, h, x, y - 1);
    lemma_count_alive_single(cells, w, h, x, y + 1);
    lemma_count_alive_single(cells, w, h, x + 1, y - 1);
    lemma_count_alive_single(cells, w, h, x + 1, y);
    lemma_count_alive_single(cells, w, h, x + 1, y + 1);
}

/// An in-grid position's row-major index lies below the grid's area.
pub proof fn lemma_cell_index_bounds(width: int, height: int, x: int, y: int)
    requires
        in_grid(width, height, x, y),
    ensures
        0 <= cell_index(width, x, y) < width * height,
{
    assert(0 <= y * width + x < width * height) by (nonlinear_arith)
        requires
            0 <= x < width,
            0 <= y < height,
    ;
}

} // verus!

use vstd::prelude::*;

use super::cell::{decay_step, Cell};

verus! {

broadcast use crate::engine::cell::Cell::lemma_make_accessors, crate::engine::cell::Cell::lemma_cell_ext;

/// One generation of cells: the dimensions and the cells stored row by row
/// (index = y * width + x).
pub struct Generation {
    pub width: nat,
    pub height: nat,
    pub cells: Seq<Cell>,
}

impl Generation {
    pub open spec fn in_bounds(self, x: int, y: int) -> bool {
        0 <= x < self.width && 0 <= y < self.height
    }

    /// Row-major position of (x, y).
    pub open spec fn index_of(self, x: int, y: int) -> int {
        y * self.width + x
    }

    /// The cell at (x, y); positions outside the grid read as dead cells.
    pub open spec fn cell_at(self, x: int, y: int) -> Cell {
        if self.in_bounds(x, y) {
            self.cells[self.index_of(x, y)]
        } else {
            Cell::dead_spec()
        }
    }

    pub open spec fn alive_at(self, x: int, y: int) -> bool {
        self.cell_at(x, y).alive_spec()
    }

    /// 1 when (x, y) holds a live cell, else 0.
    pub open spec fn live_indicator(self, x: int, y: int) -> nat {
        if self.alive_at(x, y) {
            1
        } else {
            0
        }
    }

    /// Number of live cells among the eight neighbors of (x, y).
    pub open spec fn neighbor_count(self, x: int, y: int) -> nat {
        self.live_indicator(x - 1, y - 1) + self.live_indicator(x, y - 1) + self.live_indicator(
            x + 1,
            y - 1,
        ) + self.live_indicator(x - 1, y) + self.live_indicator(x + 1, y) + self.live_indicator(
            x - 1,
            y + 1,
        ) + self.live_indicator(x, y + 1) + self.live_indicator(x + 1, y + 1)
    }
}

/// The mathematical content of a grid: its dimensions, the current
/// generation and the next-generation buffer, both stored row by row
/// (index = y * width + x).
pub struct GridModel {
    pub width: nat,
    pub height: nat,
    pub current: Seq<Cell>,
    pub next: Seq<Cell>,
}

impl GridModel {
    /// Both buffers hold exactly `width * height` cells.
    pub open spec fn wf(self) -> bool {
        &&& self.current.len() == self.width * self.height
        &&& self.next.len() == self.width * self.height
    }

    /// The current generation, which is all that reads of the grid see.
    pub open spec fn generation(self) -> Generation {
        Generation { width: self.width, height: self.height, cells: self.current }
    }

    pub open spec fn in_bounds(self, x: int, y: int) -> bool {
        self.generation().in_bounds(x, y)
    }

    /// Row-major position of (x, y).
    pub open spec fn index_of(self, x: int, y: int) -> int {
        y * self.width + x
    }

    /// The cell at (x, y) of the current generation; positions outside the
    /// grid read as dead cells.
    pub open spec fn cell_at(self, x: int, y: int) -> Cell {
        self.generation().cell_at(x, y)
    }

    /// The cell at (x, y) of the next-generation buffer.
    pub open spec fn next_at(self, x: int, y: int) -> Cell {
        if self.in_bounds(x, y) {
            self.next[self.index_of(x, y)]
        } else {
            Cell::dead_spec()
        }
    }

    pub open spec fn alive_at(self, x: int, y: int) -> bool {
        self.generation().alive_at(x, y)
    }

    pub open spec fn live_indicator(self, x: int, y: int) -> nat {
        self.generation().live_indicator(x, y)
    }

    /// Number of live cells among the eight neighbors of (x, y).
    pub open spec fn neighbor_count(self, x: int, y: int) -> nat {
        self.generation().neighbor_count(x, y)
    }

    /// The model after writing `cell` at (x, y) of the current generation;
    /// a position outside the grid leaves it unchanged.
    pub open spec fn with_cell(self, x: int, y: int, cell: Cell) -> GridModel {
        if self.in_bounds(x, y) {
            GridModel { current: self.current.update(self.index_of(x, y), cell), ..self }
        } else {
            self
        }
    }

    /// The model after writing `cell` at (x, y) of the next-generation buffer.
    pub open spec fn with_next_cell(self, x: int, y: int, cell: Cell) -> GridModel {
        if self.in_bounds(x, y) {
            GridModel { next: self.next.update(self.index_of(x, y), cell), ..self }
        } else {
            self
        }
    }

    /// The model with the two buffers exchanged.
    pub open spec fn swapped(self) -> GridModel {
        GridModel { current: self.next, next: self.current, ..self }
    }

    /// The model one generation later: cell `i` (row by row) takes the
    /// alive state `verdicts[i]` and its decay moves one step at `rate`
    /// toward it, while the previous generation moves to the
    /// next-generation buffer.
    pub open spec fn advanced(self, verdicts: Seq<bool>, rate: u8) -> GridModel {
        GridModel {
            width: self.width,
            height: self.height,
            current: Seq::new(
                self.current.len(),
                |i: int|
                    Cell::make(
                        verdicts[i],
                        decay_step(verdicts[i], self.current[i].decay_spec(), rate),
                    ),
            ),
            next: self.current,
        }
    }

    /// An all-dead `width` x `height` model.
    pub open spec fn empty(width: nat, height: nat) -> GridModel {
        GridModel {
            width,
            height,
            current: Seq::new(width * height, |i: int| Cell::dead_spec()),
            next: Seq::new(width * height, |i: int| Cell::dead_spec()),
        }
    }
}

/// (x, y) with x < width and y < height lies inside a row-major buffer of
/// `width * height` cells.
pub proof fn lemma_index_in_range(width: int, height: int, x: int, y: int)
    requires
        0 <= x < width,
        0 <= y < height,
    ensures
        0 <= y * width + x < width * height,
{
    assert(y * width + x < width * height) by (nonlinear_arith)
        requires
            0 <= x < width,
            0 <= y < height,
    ;
    assert(0 <= y * width) by (nonlinear_arith)
        requires
            0 <= y,
            0 <= width,
    ;
}

/// Distinct in-bounds positions occupy distinct buffer slots.
pub proof fn lemma_index_injective(width: int, x1: int, y1: int, x2: int, y2: int)
    requires
        0 <= x1 < width,
        0 <= x2 < width,
        0 <= y1,
        0 <= y2,
        y1 * width + x1 == y2 * width + x2,
    ensures
        x1 == x2 && y1 == y2,
{
    if y1 < y2 {
        assert(y1 * width + width <= y2 * width) by (nonlinear_arith)
            requires
                y1 < y2,
                0 <= width,
        ;
    } else if y2 < y1 {
        assert(y2 * width + width <= y1 * width) by (nonlinear_arith)
            requires
                y2 < y1,
                0 <= width,
        ;
    }
}

/// The position of buffer slot `i` in a grid of the given width.
pub proof fn lemma_index_decompose(width: int, i: int)
    requires
        0 < width,
        0 <= i,
    ensures
        i == (i / width) * width + i % width,
        0 <= i % width < width,
        0 <= i / width,
{
    assert(i == (i / width) * width + i % width) by (nonlinear_arith)
        requires
            0 < width,
    ;
    assert(0 <= i / width) by (nonlinear_arith)
        requires
            0 < width,
            0 <= i,
    ;
}

/// A vector of `n` copies of `cell`.
fn filled(n: usize, cell: Cell) -> (v: Vec<Cell>)
    ensures
        v@ == Seq::new(n as nat, |i: int| cell),
{
    let mut v: Vec<Cell> = Vec::new();
    let mut k: usize = 0;
    while k < n
        invariant
            k <= n,
            v@ == Seq::new(k as nat, |i: int| cell),
        decreases n - k,
    {
        v.push(cell);
        k = k + 1;
    }
    v
}

/// 2D grid of cells for cellular automata simulation
///
/// Uses flat storage for better cache locality and double buffering
/// for zero-copy state updates.
pub struct Grid {
    width: usize,
    height: usize,
    /// Current generation (flat storage: index = y * width + x)
    current: Vec<Cell>,
    /// Next generation buffer (for swap-based updates)
    next: Vec<Cell>,
}

impl View for Grid {
    type V = GridModel;

    closed spec fn view(&self) -> GridModel {
        GridModel {
            width: self.width as nat,
            height: self.height as nat,
            current: self.current@,
            next: self.next@,
        }
    }
}

impl Grid {

    /// Create a new grid filled with dead cells
    pub fn new(width: usize, height: usize) -> (g: Grid)
        requires
            width * height <= usize::MAX,
        ensures
            g@ == GridModel::empty(width as nat, height as nat),
    {
        let size = width * height;
        Grid { width, height, current: filled(size, Cell::dead()), next: filled(size, Cell::dead()) }
    }

    /// Create a grid from a vector of cells
    ///
    /// The caller supplies exactly `width * height` cells, row by row.
    pub fn from_cells(width: usize, height: usize, cells: Vec<Cell>) -> (g: Grid)
        requires
            cells@.len() == width * height,
        ensures
            g@ == (GridModel {
                width: width as nat,
                height: height as nat,
                current: cells@,
                next: Seq::new(width as nat * height as nat, |i: int| Cell::dead_spec()),
            }),
    {
        let size = cells.len();
        Grid { width, height, current: cells, next: filled(size, Cell::dead()) }
    }

    /// Get cell at (x, y)
    ///
    /// Returns dead cell if out of bounds (treats edges as dead)
    pub fn get(&self, x: usize, y: usize) -> (c: Cell)
        requires
            self@.wf(),
        ensures
            c == self@.cell_at(x as int, y as int),
    {
        if x >= self.width || y >= self.height {
            return Cell::dead();
        }
        proof {
            lemma_index_in_range(self.width as int, self.height as int, x as int, y as int);
            // A Vec's length fits in a usize.
            assert(self.current@.len() == self.current.len());
        }
        self.current[y * self.width + x]
    }

    /// Set cell in current buffer (for initialization)
    pub fn set(&mut self, x: usize, y: usize, cell: Cell)
        requires
            old(self)@.wf(),
        ensures
            final(self)@ == old(self)@.with_cell(x as int, y as int, cell),
    {
        if x < self.width && y < self.height {
            proof {
                lemma_index_in_range(self.width as int, self.height as int, x as int, y as int);
                // A Vec's length fits in a usize.
                assert(self.current@.len() == self.current.len());
            }
            let i = y * self.width + x;
            self.current.set(i, cell);
        }
    }

    /// Set cell in next buffer (used during CA updates)
    pub fn set_next(&mut self, x: usize, y: usize, cell: Cell)
        requires
            old(self)@.wf(),
        ensures
            final(self)@ == old(self)@.with_next_cell(x as int, y as int, cell),
    {
        if x < self.width && y < self.height {
            proof {
                lemma_index_in_range(self.width as int, self.height as int, x as int, y as int);
                // A Vec's length fits in a usize.
                assert(self.current@.len() == self.current.len());
            }
            let i = y * self.width + x;
            self.next.set(i, cell);
        }
    }

    /// 1 when (x, y) holds a live cell, else 0.
    fn live_indicator(&self, x: usize, y: usize) -> (n: u8)
        requires
            self@.wf(),
        ensures
            n == self@.live_indicator(x as int, y as int),
    {
        if self.get(x, y).is_alive() {
            1
        } else {
            0
        }
    }

    /// Count alive neighbors in 8-connected neighborhood
    ///
    /// Neighbors outside the grid count as dead.
    pub fn count_neighbors(&self, x: usize, y: usize) -> (count: u8)
        requires
            self@.wf(),
        ensures
            count == self@.neighbor_count(x as int, y as int),
            count <= 8,
    {
        let mut count: u8 = 0;
        // Row above (absent when y == 0).
        if y > 0 {
            if x > 0 {
                count = count + self.live_indicator(x - 1, y - 1);
            }
            count = count + self.live_indicator(x, y - 1);
            if x < usize::MAX {
                count = count + self.live_indicator(x + 1, y - 1);
            }
        }
        // Same row, skipping the center cell.
        if x > 0 {
            count = count + self.live_indicator(x - 1, y);
        }
        if x < usize::MAX {
            count = count + self.live_indicator(x + 1, y);
        }
        // Row below (absent when y is the largest index).
        if y < usize::MAX {
            if x > 0 {
                count = count + self.live_indicator(x - 1, y + 1);
            }
            count = count + self.live_indicator(x, y + 1);
            if x < usize::MAX {
                count = count + self.live_indicator(x + 1, y + 1);
            }
        }
        count
    }

    /// Swap current and next buffers (zero-copy update)
    ///
    /// This is called after computing the next generation to make it current.
    pub fn swap_buffers(&mut self)
        requires
            old(self)@.wf(),
        ensures
            final(self)@ == old(self)@.swapped(),
    {
        std::mem::swap(&mut self.current, &mut self.next);
    }

    /// A grid's cell count, `width * height`, fits in a usize.
    pub proof fn lemma_cells_fit(&self)
        requires
            self@.wf(),
        ensures
            self@.width * self@.height <= usize::MAX,
    {
        assert(self.current@.len() == self.current.len());
    }

    /// Get grid width
    pub fn width(&self) -> (w: usize)
        ensures
            w == self@.width,
    {
        self.width
    }

    /// Get grid height
    pub fn height(&self) -> (h: usize)
        ensures
            h == self@.height,
    {
        self.height
    }

    /// All cells with their coordinates, row by row: entry `i` is
    /// `(i % width, i / width, cell)`.
    pub fn cells(&self) -> (cells: Vec<(usize, usize, Cell)>)
        requires
            self@.wf(),
        ensures
            cells@.len() == self@.width * self@.height,
            forall|i: int|
                #![trigger cells@[i]]
                0 <= i < cells@.len() ==> {
                    &&& cells@[i].0 == i % (self@.width as int)
                    &&& cells@[i].1 == i / (self@.width as int)
                    &&& cells@[i].2 == self@.current[i]
                },
    {
        let mut out: Vec<(usize, usize, Cell)> = Vec::new();
        let mut y: usize = 0;
        while y < self.height
            invariant
                y <= self.height,
                self.current@.len() == self.width * self.height,
                out@.len() == y * self.width,
                forall|i: int|
                    #![trigger out@[i]]
                    0 <= i < out@.len() ==> {
                        &&& out@[i].0 == i % (self.width as int)
                        &&& out@[i].1 == i / (self.width as int)
                        &&& out@[i].2 == self.current@[i]
                    },
            decreases self.height - y,
        {
            let mut x: usize = 0;
            while x < self.width
                invariant
                    x <= self.width,
                    y < self.height,
                    self.current@.len() == self.width * self.height,
                    out@.len() == y * self.width + x,
                    forall|i: int|
                        #![trigger out@[i]]
                        0 <= i < out@.len() ==> {
                            &&& out@[i].0 == i % (self.width as int)
                            &&& out@[i].1 == i / (self.width as int)
                            &&& out@[i].2 == self.current@[i]
                        },
                decreases self.width - x,
            {
                proof {
                    lemma_index_in_range(self.width as int, self.height as int, x as int, y as int);
                    lemma_div_mod_row(self.width as int, x as int, y as int);
                    // A Vec's length fits in a usize.
                    assert(self.current@.len() == self.current.len());
                }
                let c = self.current[y * self.width + x];
                out.push((x, y, c));
                x = x + 1;
            }
            proof {
                assert((y + 1) * self.width == y * self.width + self.width) by (nonlinear_arith);
            }
            y = y + 1;
        }
        proof {
            assert(self.height * self.width == self.width * self.height) by (nonlinear_arith);
        }
        out
    }

    /// Advance one generation: cell `i` (row by row) becomes alive exactly
    /// when `verdicts[i]` holds, keeping its decay, in the next-generation
    /// buffer; the buffers are swapped; then every decay moves one step at
    /// `rate` toward its cell's state.
    pub fn advance(&mut self, verdicts: &Vec<bool>, rate: u8)
        requires
            old(self)@.wf(),
            verdicts@.len() == old(self)@.current.len(),
        ensures
            final(self)@ == old(self)@.advanced(verdicts@, rate),
    {
        let ghost g0 = self@;
        let n = self.current.len();
        let mut i: usize = 0;
        while i < n
            invariant
                i <= n,
                n == g0.current.len(),
                verdicts@.len() == n,
                g0.wf(),
                self.width == g0.width,
                self.height == g0.height,
                self.current@ == g0.current,
                self.next@.len() == n,
                forall|j: int|
                    #![trigger self.next@[j]]
                    0 <= j < i ==> self.next@[j] == Cell::make(
                        verdicts@[j],
                        g0.current[j].decay_spec(),
                    ),
            decreases n - i,
        {
            let mut cell = self.current[i];
            cell.set_alive(verdicts[i]);
            self.next.set(i, cell);
            i = i + 1;
        }
        self.swap_buffers();
        self.decay_all(rate);
        proof {
            assert(self@.current =~= g0.advanced(verdicts@, rate).current);
        }
    }

    /// Apply one decay update at `rate` to every cell of the current
    /// generation; the next-generation buffer is untouched.
    pub fn decay_all(&mut self, rate: u8)
        requires
            old(self)@.wf(),
        ensures
            final(self)@.width == old(self)@.width,
            final(self)@.height == old(self)@.height,
            final(self)@.next == old(self)@.next,
            final(self)@.current.len() == old(self)@.current.len(),
            forall|i: int|
                #![trigger final(self)@.current[i]]
                0 <= i < old(self)@.current.len() ==> final(self)@.current[i] == Cell::make(
                    old(self)@.current[i].alive_spec(),
                    decay_step(
                        old(self)@.current[i].alive_spec(),
                        old(self)@.current[i].decay_spec(),
                        rate,
                    ),
                ),
    {
        let ghost start = self.current@;
        let n = self.current.len();
        let mut i: usize = 0;
        while i < n
            invariant
                n == start.len(),
                n == self.width * self.height,
                self.width == old(self).width,
                self.height == old(self).height,
                self.next@ == old(self).next@,
                self.current@.len() == n,
                i <= n,
                forall|j: int|
                    #![trigger self.current@[j]]
                    0 <= j < i ==> self.current@[j] == Cell::make(
                        start[j].alive_spec(),
                        decay_step(start[j].alive_spec(), start[j].decay_spec(), rate),
                    ),
                forall|j: int| #![trigger self.current@[j]] i <= j < n ==> self.current@[j] == start[j],
            decreases n - i,
        {
            let mut c = self.current[i];
            c.update_decay(rate);
            self.current.set(i, c);
            i = i + 1;
        }
    }
}

/// Slot y * width + x of a row-major buffer lies at column x of row y.
pub proof fn lemma_div_mod_row(width: int, x: int, y: int)
    requires
        0 <= x < width,
        0 <= y,
    ensures
        (y * width + x) % width == x,
        (y * width + x) / width == y,
{
    vstd::arithmetic::div_mod::lemma_fundamental_div_mod_converse(y * width + x, width, y, x);
}


/// Row-major progress: (x, y) comes before (col, row).
pub open spec fn before(row: int, col: int, x: int, y: int) -> bool {
    y < row || (y == row && x < col)
}

/// A row-major buffer of `width * height` cells in which the positions
/// before (col, row) hold `done(x, y)` and the others hold `pending(x, y)`.
pub open spec fn progress<A>(
    width: int,
    height: int,
    row: int,
    col: int,
    done: spec_fn(int, int) -> A,
    pending: spec_fn(int, int) -> A,
) -> Seq<A> {
    Seq::new(
        (width * height) as nat,
        |p: int|
            if before(row, col, p % width, p / width) {
                done(p % width, p / width)
            } else {
                pending(p % width, p / width)
            },
    )
}

/// Before any position is visited the buffer holds `pending` everywhere.
pub proof fn lemma_progress_start<A>(
    width: int,
    height: int,
    done: spec_fn(int, int) -> A,
    pending: spec_fn(int, int) -> A,
)
    requires
        0 < width,
        0 <= height,
    ensures
        progress(width, height, 0, 0, done, pending) == Seq::new(
            (width * height) as nat,
            |p: int| pending(p % width, p / width),
        ),
{
    assert forall|p: int| 0 <= p < width * height implies #[trigger] progress(
        width,
        height,
        0,
        0,
        done,
        pending,
    )[p] == pending(p % width, p / width) by {
        lemma_index_decompose(width, p);
    }
    assert(progress(width, height, 0, 0, done, pending) =~= Seq::new(
        (width * height) as nat,
        |p: int| pending(p % width, p / width),
    ));
}

/// Visiting (col, row) changes exactly its slot, to `done(col, row)`.
pub proof fn lemma_progress_step<A>(
    width: int,
    height: int,
    row: int,
    col: int,
    done: spec_fn(int, int) -> A,
    pending: spec_fn(int, int) -> A,
)
    requires
        0 <= col < width,
        0 <= row < height,
    ensures
        0 <= row * width + col < width * height,
        progress(width, height, row, col, done, pending)[row * width + col] == pending(col, row),
        progress(width, height, row, col + 1, done, pending) == progress(
            width,
            height,
            row,
            col,
            done,
            pending,
        ).update(row * width + col, done(col, row)),
{
    let p = row * width + col;
    lemma_index_in_range(width, height, col, row);
    lemma_div_mod_row(width, col, row);
    let before_seq = progress(width, height, row, col, done, pending);
    let after_seq = progress(width, height, row, col + 1, done, pending);
    assert forall|q: int| 0 <= q < width * height && q != p implies #[trigger] after_seq[q]
        == before_seq[q] by {
        lemma_index_decompose(width, q);
        if before(row, col + 1, q % width, q / width) != before(row, col, q % width, q / width) {
            assert(q == (q / width) * width + q % width);
        }
    }
    assert(after_seq =~= before_seq.update(p, done(col, row)));
}

/// After the first `visited` columns of a row, the row is finished when the
/// remaining columns hold the same either way.
pub proof fn lemma_progress_row<A>(
    width: int,
    height: int,
    row: int,
    visited: int,
    done: spec_fn(int, int) -> A,
    pending: spec_fn(int, int) -> A,
)
    requires
        0 < width,
        0 <= visited <= width,
        0 <= row < height,
        forall|x: int| visited <= x < width ==> #[trigger] done(x, row) == pending(x, row),
    ensures
        progress(width, height, row, visited, done, pending) == progress(
            width,
            height,
            row + 1,
            0,
            done,
            pending,
        ),
{
    assert forall|p: int| 0 <= p < width * height implies #[trigger] progress(
        width,
        height,
        row,
        visited,
        done,
        pending,
    )[p] == progress(width, height, row + 1, 0, done, pending)[p] by {
        lemma_index_decompose(width, p);
        if p / width == row && p % width >= visited {
            assert(done(p % width, row) == pending(p % width, row));
        }
    }
    assert(progress(width, height, row, visited, done, pending) =~= progress(
        width,
        height,
        row + 1,
        0,
        done,
        pending,
    ));
}

/// After the first `visited` rows the buffer is finished when the remaining
/// rows hold the same either way.
pub proof fn lemma_progress_done<A>(
    width: int,
    height: int,
    visited: int,
    done: spec_fn(int, int) -> A,
    pending: spec_fn(int, int) -> A,
)
    requires
        0 < width,
        0 <= visited <= height,
        forall|x: int, y: int|
            0 <= x < width && visited <= y < height ==> #[trigger] done(x, y) == pending(x, y),
    ensures
        progress(width, height, visited, 0, done, pending) == Seq::new(
            (width * height) as nat,
            |p: int| done(p % width, p / width),
        ),
{
    assert forall|p: int| 0 <= p < width * height implies #[trigger] progress(
        width,
        height,
        visited,
        0,
        done,
        pending,
    )[p] == done(p % width, p / width) by {
        lemma_index_decompose(width, p);
        assert(p / width < height) by (nonlinear_arith)
            requires
                0 <= p < width * height,
                0 < width,
        ;
        if !before(visited, 0, p % width, p / width) {
            assert(done(p % width, p / width) == pending(p % width, p / width));
        }
    }
    assert(progress(width, height, visited, 0, done, pending) =~= Seq::new(
        (width * height) as nat,
        |p: int| done(p % width, p / width),
    ));
}


/// Reading a position after writing it gives the written cell when the
/// position is inside the grid; every other position, and every write
/// outside the grid, leaves what is read unchanged.
pub proof fn lemma_read_after_write(g: GridModel, x: int, y: int, cell: Cell, x2: int, y2: int)
    requires
        g.wf(),
    ensures
        g.with_cell(x, y, cell).wf(),
        g.in_bounds(x, y) ==> g.with_cell(x, y, cell).cell_at(x, y) == cell,
        !(x2 == x && y2 == y) ==> g.with_cell(x, y, cell).cell_at(x2, y2) == g.cell_at(x2, y2),
        !g.in_bounds(x, y) ==> g.with_cell(x, y, cell) == g,
        !g.in_bounds(x2, y2) ==> g.cell_at(x2, y2) == Cell::dead_spec(),
{
    if g.in_bounds(x, y) {
        lemma_index_in_range(g.width as int, g.height as int, x, y);
        if g.in_bounds(x2, y2) && !(x2 == x && y2 == y) {
            lemma_index_in_range(g.width as int, g.height as int, x2, y2);
            if y2 * g.width + x2 == y * g.width + x {
                lemma_index_injective(g.width as int, x, y, x2, y2);
            }
        }
    }
}

/// Swapping the buffers twice restores the grid.
pub proof fn lemma_swap_twice(g: GridModel)
    ensures
        g.swapped().swapped() == g,
        g.wf() ==> g.swapped().wf(),
{
}

/// A cell has at most eight live neighbors.
pub proof fn lemma_neighbor_count_bounded(g: Generation, x: int, y: int)
    ensures
        g.neighbor_count(x, y) <= 8,
{
}

/// (a, b) is one of the eight cells around (x, y).
pub open spec fn is_neighbor(a: int, b: int, x: int, y: int) -> bool {
    &&& -1 <= a - x <= 1
    &&& -1 <= b - y <= 1
    &&& !(a == x && b == y)
}

/// No cell of an all-dead grid has a live neighbor.
pub proof fn lemma_neighbor_count_empty(width: nat, height: nat, x: int, y: int)
    ensures
        GridModel::empty(width, height).neighbor_count(x, y) == 0,
{
    let g = GridModel::empty(width, height);
    let gen = g.generation();
    assert forall|a: int, b: int| #[trigger] gen.live_indicator(a, b) == 0 by {
        if gen.in_bounds(a, b) {
            lemma_index_in_range(width as int, height as int, a, b);
        }
    }
}

/// Every one of the eight surrounding cells counts, and nothing else does:
/// bringing a dead in-grid cell (a, b) to life adds one to the neighbor
/// count of (x, y) when (a, b) is one of its eight neighbors, and leaves it
/// unchanged otherwise (also when (a, b) is (x, y) itself).
pub proof fn lemma_neighbor_count_each_neighbor(
    g: GridModel,
    x: int,
    y: int,
    a: int,
    b: int,
    cell: Cell,
)
    requires
        g.wf(),
        g.in_bounds(a, b),
        !g.alive_at(a, b),
        cell.alive_spec(),
    ensures
        is_neighbor(a, b, x, y) ==> g.with_cell(a, b, cell).neighbor_count(x, y)
            == g.neighbor_count(x, y) + 1,
        !is_neighbor(a, b, x, y) ==> g.with_cell(a, b, cell).neighbor_count(x, y)
            == g.neighbor_count(x, y),
{
    let h = g.with_cell(a, b, cell);
    lemma_read_after_write(g, a, b, cell, x - 1, y - 1);
    lemma_read_after_write(g, a, b, cell, x, y - 1);
    lemma_read_after_write(g, a, b, cell, x + 1, y - 1);
    lemma_read_after_write(g, a, b, cell, x - 1, y);
    lemma_read_after_write(g, a, b, cell, x + 1, y);
    lemma_read_after_write(g, a, b, cell, x - 1, y + 1);
    lemma_read_after_write(g, a, b, cell, x, y + 1);
    lemma_read_after_write(g, a, b, cell, x + 1, y + 1);
}

} // verus!

use vstd::prelude::*;

use super::cell::{decay_step, Cell};
use super::grid::{lemma_div_mod_row, lemma_index_in_range, Grid, GridModel};
use crate::rules::Rule;

verus! {

/// The decay rate an automaton starts with.
pub const DEFAULT_DECAY_RATE: u8 = 32;

/// The rule's answers for every cell of `grid`, row by row: entry
/// `y * width + x` is `rule.next_state(grid, x, y)`.
pub open spec fn rule_verdicts<R: Rule + ?Sized>(rule: Box<R>, grid: Grid) -> Seq<bool> {
    Seq::new(
        grid@.current.len(),
        |i: int|
            rule.next_state(
                &grid,
                (i % (grid@.width as int)) as usize,
                (i / (grid@.width as int)) as usize,
            ),
    )
}

/// Cellular automata simulation engine
///
/// Orchestrates grid updates using CA rules and manages decay transitions.
/// The rule's type is a parameter (a boxed `dyn Rule` unless given), so
/// that the automaton's contract can name the rule it was made with.
pub struct Automata<R: Rule + ?Sized = dyn Rule> {
    grid: Grid,
    rule: Box<R>,
    decay_rate: u8,
}

impl<R: Rule + ?Sized> Automata<R> {
    /// The automaton's grid.
    pub open spec fn grid_view(&self) -> GridModel {
        self.grid_spec()@
    }

    /// The automaton's grid as a value.
    pub closed spec fn grid_spec(&self) -> Grid {
        self.grid
    }

    /// The rule the automaton applies.
    pub closed spec fn rule_spec(&self) -> Box<R> {
        self.rule
    }


    /// How far each decay value moves per generation.
    pub closed spec fn decay_rate_spec(&self) -> u8 {
        self.decay_rate
    }

    /// The grid's buffers are consistent with its dimensions.
    pub open spec fn wf(&self) -> bool {
        self.grid_view().wf()
    }

    /// Create new automata with a grid and rule
    pub fn new(grid: Grid, rule: Box<R>) -> (a: Automata<R>)
        requires
            grid@.wf(),
        ensures
            a.grid_spec() == grid,
            a.grid_view() == grid@,
            a.rule_spec() == rule,
            a.decay_rate_spec() == DEFAULT_DECAY_RATE,
    {
        Automata { grid, rule, decay_rate: DEFAULT_DECAY_RATE }
    }

    /// Set decay rate (how fast cells transition visually)
    pub fn with_decay_rate(self, rate: u8) -> (a: Automata<R>)
        ensures
            a.grid_spec() == self.grid_spec(),
            a.grid_view() == self.grid_view(),
            a.rule_spec() == self.rule_spec(),
            a.decay_rate_spec() == rate,
    {
        let mut a = self;
        a.decay_rate = rate;
        a
    }

    /// The rule's verdict for every cell of the current generation, row by
    /// row: entry `y * width + x` is what the rule answers for (x, y) on
    /// the current grid.
    fn verdicts(&self) -> (verdicts: Vec<bool>)
        requires
            self.wf(),
        ensures
            verdicts@ == rule_verdicts(self.rule_spec(), self.grid_spec()),
    {
        let w = self.grid.width();
        let h = self.grid.height();
        let mut verdicts: Vec<bool> = Vec::new();
        let mut y: usize = 0;
        while y < h
            invariant
                y <= h,
                w == self.grid@.width,
                h == self.grid@.height,
                self.grid@.wf(),
                verdicts@.len() == y * w,
                forall|i: int|
                    0 <= i < verdicts@.len() ==> #[trigger] verdicts@[i] == self.rule_spec().next_state(
                        &self.grid,
                        (i % (w as int)) as usize,
                        (i / (w as int)) as usize,
                    ),
            decreases h - y,
        {
            let mut x: usize = 0;
            while x < w
                invariant
                    x <= w,
                    y < h,
                    w == self.grid@.width,
                    h == self.grid@.height,
                    self.grid@.wf(),
                    verdicts@.len() == y * w + x,
                    forall|i: int|
                        0 <= i < verdicts@.len() ==> #[trigger] verdicts@[i] == self.rule_spec().next_state(
                            &self.grid,
                            (i % (w as int)) as usize,
                            (i / (w as int)) as usize,
                        ),
                decreases w - x,
            {
                proof {
                    lemma_div_mod_row(w as int, x as int, y as int);
                }
                verdicts.push(self.rule.apply(&self.grid, x, y));
                x = x + 1;
            }
            proof {
                assert((y + 1) * w == y * w + w) by (nonlinear_arith);
            }
            y = y + 1;
        }
        proof {
            assert(h * w == w * h) by (nonlinear_arith);
            assert(verdicts@ =~= rule_verdicts(self.rule_spec(), self.grid_spec()));
        }
        verdicts
    }

    /// Run one generation
    ///
    /// Asks the rule for every cell of the current generation, makes the
    /// answers the new generation (the previous one moves to the next
    /// buffer), then moves every decay value one step toward its cell's
    /// state: the new grid is the one `GridModel::advanced` describes for
    /// the rule's answers on the old grid.
    pub fn step(&mut self)
        requires
            old(self).wf(),
        ensures
            final(self).grid_view() == old(self).grid_view().advanced(
                rule_verdicts(old(self).rule_spec(), old(self).grid_spec()),
                old(self).decay_rate_spec(),
            ),
            final(self).rule_spec() == old(self).rule_spec(),
            final(self).decay_rate_spec() == old(self).decay_rate_spec(),
    {
        // Apply rule to compute next generation
        let verdicts = self.verdicts();
        // Install it, swap buffers and update decay values
        self.grid.advance(&verdicts, self.decay_rate);
    }

    /// Get reference to grid
    pub fn grid(&self) -> (g: &Grid)
        ensures
            *g == self.grid_spec(),
            g@ == self.grid_view(),
    {
        &self.grid
    }

    /// Get mutable reference to grid (for setup)
    pub fn grid_mut(&mut self) -> (g: &mut Grid)
        ensures
            *g == old(self).grid_spec(),
            g@ == old(self).grid_view(),
            final(self).grid_spec() == *final(g),
            final(self).grid_view() == final(g)@,
            final(self).rule_spec() == old(self).rule_spec(),
            final(self).decay_rate_spec() == old(self).decay_rate_spec(),
    {
        &mut self.grid
    }
}

/// After a step, the cell at (x, y) is alive exactly when the rule
/// answered so for (x, y) on the grid before the step, and its decay has
/// moved one step at `rate` toward that state.
pub proof fn lemma_step_cell<R: Rule + ?Sized>(rule: Box<R>, grid: Grid, rate: u8, x: usize, y: usize)
    requires
        grid@.wf(),
        grid@.in_bounds(x as int, y as int),
    ensures
        grid@.advanced(rule_verdicts(rule, grid), rate).cell_at(x as int, y as int) == Cell::make(
            rule.next_state(&grid, x, y),
            decay_step(
                rule.next_state(&grid, x, y),
                grid@.cell_at(x as int, y as int).decay_spec(),
                rate,
            ),
        ),
{
    broadcast use crate::engine::cell::Cell::lemma_make_accessors;

    let g = grid@;
    lemma_index_in_range(g.width as int, g.height as int, x as int, y as int);
    lemma_div_mod_row(g.width as int, x as int, y as int);
    let i = y * g.width + x;
    assert(rule_verdicts(rule, grid)[i] == rule.next_state(&grid, x, y));
}

} // verus!

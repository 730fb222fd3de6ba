use vstd::prelude::*;

use super::colored::{colored_rows, colored_text};
use super::frame::{text_rows, Frame};
use crate::color::Color;
use crate::color::ColorMap;
use crate::engine::automata::{rule_verdicts, Automata};
use crate::rules::Rule;
use crate::engine::cell::Cell;
use crate::glyphs::sets::{glyph_index, GlyphSet};
use crate::engine::grid::{
    lemma_index_decompose,
    lemma_index_in_range,
    lemma_progress_done,
    lemma_progress_row,
    lemma_progress_start,
    lemma_progress_step,
    progress,
    Grid,
    GridModel,
};

verus! {

broadcast use crate::engine::cell::Cell::lemma_make_accessors,
    crate::engine::cell::Cell::lemma_cell_ext;

pub open spec fn max_nat(a: nat, b: nat) -> nat {
    if a >= b {
        a
    } else {
        b
    }
}

/// The cell at (x, y) of two overlaid grids: alive with full decay where
/// `start` is alive, otherwise alive with decay 128 where `end` is alive,
/// otherwise dead.
pub open spec fn merged_cell(start: GridModel, end: GridModel, x: int, y: int) -> Cell {
    if start.alive_at(x, y) {
        Cell::make(true, 255)
    } else if end.alive_at(x, y) {
        Cell::make(true, 128)
    } else {
        Cell::dead_spec()
    }
}

/// The overlay of two grids, as large as both in each dimension.
pub open spec fn merged_model(start: GridModel, end: GridModel) -> GridModel {
    let w = max_nat(start.width, end.width);
    let h = max_nat(start.height, end.height);
    GridModel {
        width: w,
        height: h,
        current: Seq::new(w * h, |i: int| merged_cell(start, end, i % (w as int), i / (w as int))),
        next: Seq::new(w * h, |i: int| Cell::dead_spec()),
    }
}

/// Dead cells everywhere.
spec fn dead_layer() -> spec_fn(int, int) -> Cell {
    |x: int, y: int| Cell::dead_spec()
}

/// The live cells of `start`, at full decay.
spec fn start_layer(start: GridModel) -> spec_fn(int, int) -> Cell {
    |x: int, y: int|
        if start.alive_at(x, y) {
            Cell::make(true, 255)
        } else {
            Cell::dead_spec()
        }
}

/// The overlay of `start` and `end`.
spec fn overlay(start: GridModel, end: GridModel) -> spec_fn(int, int) -> Cell {
    |x: int, y: int| merged_cell(start, end, x, y)
}

/// Merge two grids by overlaying them
///
/// For cells that exist in both grids, uses OR logic (alive if either is alive).
/// Used to create initial state for morphing.
pub fn merge_grids(start: &Grid, end: &Grid) -> (merged: Grid)
    requires
        start@.wf(),
        end@.wf(),
        max_nat(start@.width, end@.width) * max_nat(start@.height, end@.height) <= usize::MAX,
    ensures
        merged@ == merged_model(start@, end@),
{
    let sw = start.width();
    let sh = start.height();
    let ew = end.width();
    let eh = end.height();
    let width = if sw >= ew {
        sw
    } else {
        ew
    };
    let height = if sh >= eh {
        sh
    } else {
        eh
    };
    let mut merged = Grid::new(width, height);
    if width == 0 {
        proof {
            assert(merged@.current =~= merged_model(start@, end@).current);
        }
        return merged;
    }
    let ghost w = width as int;
    let ghost h = height as int;
    let ghost dead = dead_layer();
    let ghost from_start = start_layer(start@);
    let ghost from_both = overlay(start@, end@);
    proof {
        lemma_progress_start(w, h, from_start, dead);
        assert(merged@.current =~= progress(w, h, 0, 0, from_start, dead));
    }
    // Copy start grid
    let mut y: usize = 0;
    while y < sh
        invariant
            y <= sh,
            sw <= width,
            sh <= height,
            w == width,
            h == height,
            0 < width,
            sw == start@.width,
            sh == start@.height,
            start@.wf(),
            merged@.wf(),
            merged@.width == width,
            merged@.height == height,
            merged@.next == Seq::new((w * h) as nat, |i: int| Cell::dead_spec()),
            merged@.current == progress(w, h, y as int, 0, from_start, dead),
            dead == dead_layer(),
            from_start == start_layer(start@),
            from_both == overlay(start@, end@),
        decreases sh - y,
    {
        let mut x: usize = 0;
        while x < sw
            invariant
                x <= sw,
                y < sh,
                sw <= width,
                sh <= height,
                w == width,
                h == height,
                0 < width,
                sw == start@.width,
                sh == start@.height,
                start@.wf(),
                merged@.wf(),
                merged@.width == width,
                merged@.height == height,
                merged@.next == Seq::new((w * h) as nat, |i: int| Cell::dead_spec()),
                merged@.current == progress(w, h, y as int, x as int, from_start, dead),
                dead == dead_layer(),
                from_start == start_layer(start@),
                from_both == overlay(start@, end@),
            decreases sw - x,
        {
            proof {
                lemma_progress_step(w, h, y as int, x as int, from_start, dead);
            }
            let ghost before = merged@.current;
            let cell = start.get(x, y);
            if cell.is_alive() {
                merged.set(x, y, Cell::alive());
            } else {
                proof {
                    assert(from_start(x as int, y as int) == before[y * w + x]);
                    assert(before.update(y * w + x, from_start(x as int, y as int)) =~= before);
                }
            }
            x = x + 1;
        }
        proof {
            assert forall|x: int| sw <= x < w implies #[trigger] from_start(x, y as int) == dead(
                x,
                y as int,
            ) by {}
            lemma_progress_row(w, h, y as int, sw as int, from_start, dead);
        }
        y = y + 1;
    }
    proof {
        lemma_progress_done(w, h, sh as int, from_start, dead);
        lemma_progress_start(w, h, from_both, from_start);
        assert(merged@.current =~= progress(w, h, 0, 0, from_both, from_start));
    }
    // Overlay end grid (with lower decay for visual distinction)
    let mut y: usize = 0;
    while y < eh
        invariant
            y <= eh,
            ew <= width,
            eh <= height,
            w == width,
            h == height,
            0 < width,
            ew == end@.width,
            eh == end@.height,
            end@.wf(),
            merged@.wf(),
            merged@.width == width,
            merged@.height == height,
            merged@.next == Seq::new((w * h) as nat, |i: int| Cell::dead_spec()),
            merged@.current == progress(w, h, y as int, 0, from_both, from_start),
            dead == dead_layer(),
            from_start == start_layer(start@),
            from_both == overlay(start@, end@),
        decreases eh - y,
    {
        let mut x: usize = 0;
        while x < ew
            invariant
                x <= ew,
                y < eh,
                ew <= width,
                eh <= height,
                w == width,
                h == height,
                0 < width,
                ew == end@.width,
                eh == end@.height,
                end@.wf(),
                merged@.wf(),
                merged@.width == width,
                merged@.height == height,
                merged@.next == Seq::new((w * h) as nat, |i: int| Cell::dead_spec()),
                merged@.current == progress(w, h, y as int, x as int, from_both, from_start),
                dead == dead_layer(),
                from_start == start_layer(start@),
                from_both == overlay(start@, end@),
            decreases ew - x,
        {
            proof {
                lemma_progress_step(w, h, y as int, x as int, from_both, from_start);
            }
            let ghost before = merged@.current;
            let cell = end.get(x, y);
            if cell.is_alive() && !merged.get(x, y).is_alive() {
                // Not alive from start: add with low decay
                merged.set(x, y, Cell::with_decay(true, 128));
            } else {
                // Already alive from start (kept), or not alive in end
                proof {
                    assert(from_both(x as int, y as int) == before[y * w + x]);
                    assert(before.update(y * w + x, from_both(x as int, y as int)) =~= before);
                }
            }
            x = x + 1;
        }
        proof {
            assert forall|x: int| ew <= x < w implies #[trigger] from_both(x, y as int) == from_start(
                x,
                y as int,
            ) by {}
            lemma_progress_row(w, h, y as int, ew as int, from_both, from_start);
        }
        y = y + 1;
    }
    proof {
        lemma_progress_done(w, h, eh as int, from_both, from_start);
        assert(merged@.current =~= merged_model(start@, end@).current);
    }
    merged
}


/// The glyphs of a frame rendered from `grid` with `glyphs`: each cell's
/// decay value picks its glyph.
pub open spec fn rendered_glyphs(grid: GridModel, glyphs: Seq<char>) -> Seq<char> {
    Seq::new(
        grid.current.len(),
        |i: int| glyphs[glyph_index(grid.current[i].decay_spec(), glyphs.len())],
    )
}

/// Number of frames a transition still yields.
pub open spec fn remaining(generation: nat, max_gen: nat) -> nat {
    if generation >= max_gen {
        0
    } else {
        (max_gen - generation) as nat
    }
}

/// `frames` is what a transition from grid `start` under `rule` yields:
/// `grids` lists the grid behind each frame and the one after the last,
/// each one generation after the one before (the rule's answers on it, at
/// decay rate `rate`), and each frame shows its grid in `glyphs`.
pub open spec fn is_run<R: Rule + ?Sized>(
    rule: Box<R>,
    start: Grid,
    rate: u8,
    glyphs: Seq<char>,
    frames: Seq<Frame>,
    grids: Seq<Grid>,
) -> bool {
    &&& grids.len() == frames.len() + 1
    &&& grids[0] == start
    &&& forall|k: int|
        0 <= k < frames.len() ==> (#[trigger] grids[k + 1])@ == grids[k]@.advanced(
            rule_verdicts(rule, grids[k]),
            rate,
        )
    &&& forall|k: int|
        0 <= k < frames.len() ==> {
            &&& (#[trigger] frames[k]).width == start@.width
            &&& frames[k].height == start@.height
            &&& frames[k].glyphs@ == rendered_glyphs(grids[k]@, glyphs)
        }
}

/// `frames` is what a transition from grid `start` under `rule` yields.
pub open spec fn runs<R: Rule + ?Sized>(
    rule: Box<R>,
    start: Grid,
    rate: u8,
    glyphs: Seq<char>,
    frames: Seq<Frame>,
) -> bool {
    exists|grids: Seq<Grid>| #[trigger] is_run(rule, start, rate, glyphs, frames, grids)
}

/// The color `map` gives each cell of `grid` for its decay, row by row.
pub open spec fn cell_colors<M: ColorMap + ?Sized>(map: Box<M>, grid: GridModel) -> Seq<Color> {
    Seq::new(grid.current.len(), |i: int| map.color_of(grid.current[i].decay_spec()))
}

/// Transition animation between two states
///
/// Generates frames by running cellular automata simulation,
/// mapping cell decay values to glyphs for smooth visual transitions.
pub struct Transition<R: Rule + ?Sized = dyn Rule> {
    automata: Automata<R>,
    glyph_set: GlyphSet,
    current_gen: usize,
    max_gen: usize,
    frame_buffer: Frame,
    color_map: Option<Box<dyn ColorMap>>,
}

impl<R: Rule + ?Sized> Transition<R> {
    /// The automaton driving the transition.
    pub closed spec fn automata_spec(&self) -> Automata<R> {
        self.automata
    }

    /// The rule the automaton applies.
    pub open spec fn rule_spec(&self) -> Box<R> {
        self.automata_spec().rule_spec()
    }

    /// The automaton's grid as a value.
    pub open spec fn grid_value(&self) -> Grid {
        self.automata_spec().grid_spec()
    }

    /// The glyphs used for rendering.
    pub closed spec fn glyphs_spec(&self) -> Seq<char> {
        self.glyph_set@
    }

    /// Number of frames yielded so far.
    pub closed spec fn generation_spec(&self) -> nat {
        self.current_gen as nat
    }

    /// Number of frames the transition yields in all.
    pub closed spec fn max_gen_spec(&self) -> nat {
        self.max_gen as nat
    }

    /// The automaton's grid.
    pub open spec fn grid_spec(&self) -> GridModel {
        self.automata_spec().grid_view()
    }

    /// The automaton is well formed and the frame buffer matches its grid.
    pub closed spec fn wf(&self) -> bool {
        &&& self.automata.wf()
        &&& self.frame_buffer.width == self.automata.grid_view().width
        &&& self.frame_buffer.height == self.automata.grid_view().height
        &&& self.frame_buffer.glyphs@.len() == self.automata.grid_view().current.len()
    }

    /// A well-formed transition's grid is well formed.
    pub proof fn lemma_wf_grid(&self)
        requires
            self.wf(),
        ensures
            self.grid_spec().wf(),
    {
    }

    /// `other` runs the same rule, automaton settings, glyphs and frame
    /// budget.
    pub open spec fn same_settings(&self, other: &Transition<R>) -> bool {
        &&& self.rule_spec() == other.rule_spec()
        &&& self.glyphs_spec() == other.glyphs_spec()
        &&& self.max_gen_spec() == other.max_gen_spec()
        &&& self.automata_spec().decay_rate_spec() == other.automata_spec().decay_rate_spec()
    }

    /// Create a new transition
    ///
    /// # Arguments
    /// * `automata` - Initialized automata with starting grid
    /// * `glyph_set` - Glyph set for rendering
    /// * `generations` - Number of generations to run
    pub fn new(automata: Automata<R>, glyph_set: GlyphSet, generations: usize) -> (t: Transition<R>)
        requires
            automata.wf(),
        ensures
            t.wf(),
            t.automata_spec() == automata,
            t.glyphs_spec() == glyph_set@,
            t.generation_spec() == 0,
            t.max_gen_spec() == generations,
            !t.has_color_map(),
            t.color_map_spec() == None::<Box<dyn ColorMap>>,
    {
        let grid = automata.grid();
        proof {
            // A grid holds `width * height` cells, so the frame's size fits too.
            grid.lemma_cells_fit();
        }
        let frame_buffer = Frame::new(grid.width(), grid.height());
        Transition {
            automata,
            glyph_set,
            current_gen: 0,
            max_gen: generations,
            frame_buffer,
            color_map: None,
        }
    }

    /// Use `color_map` for colored rendering
    pub fn with_color_map(self, color_map: Box<dyn ColorMap>) -> (t: Transition<R>)
        requires
            self.wf(),
        ensures
            t.wf(),
            t.same_settings(&self),
            t.automata_spec() == self.automata_spec(),
            t.generation_spec() == self.generation_spec(),
            t.has_color_map(),
            t.color_map_spec() == Some(color_map),
    {
        let mut t = self;
        let attached = Some(color_map);
        t.color_map = attached;
        t
    }

    /// Use `color_map`, if any, for colored rendering (none: plain text).
    pub(crate) fn with_color_map_option(self, color_map: Option<Box<dyn ColorMap>>) -> (t:
        Transition<R>)
        requires
            self.wf(),
        ensures
            t.wf(),
            t.same_settings(&self),
            t.automata_spec() == self.automata_spec(),
            t.generation_spec() == self.generation_spec(),
            t.has_color_map() == color_map is Some,
            t.color_map_spec() == color_map,
    {
        let mut t = self;
        t.color_map = color_map;
        t
    }

    /// Render current grid state to frame buffer
    fn render_frame(&mut self)
        requires
            old(self).wf(),
        ensures
            final(self).wf(),
            final(self).automata == old(self).automata,
            final(self).glyph_set@ == old(self).glyph_set@,
            final(self).current_gen == old(self).current_gen,
            final(self).max_gen == old(self).max_gen,
            final(self).color_map == old(self).color_map,
            final(self).frame_buffer.glyphs@ == rendered_glyphs(
                old(self).automata.grid_view(),
                old(self).glyph_set@,
            ),
    {
        let grid = self.automata.grid();
        let cells = grid.cells();
        let ghost g = grid@;
        let ghost target = rendered_glyphs(g, self.glyph_set@);
        let mut i: usize = 0;
        while i < cells.len()
            invariant
                g == self.automata.grid_view(),
                g.wf(),
                self.wf(),
                self.automata == old(self).automata,
                self.glyph_set@ == old(self).glyph_set@,
                self.current_gen == old(self).current_gen,
                self.max_gen == old(self).max_gen,
                self.color_map == old(self).color_map,
                target == rendered_glyphs(g, self.glyph_set@),
                cells@.len() == g.width * g.height,
                forall|k: int|
                    #![trigger cells@[k]]
                    0 <= k < cells@.len() ==> {
                        &&& cells@[k].0 == k % (g.width as int)
                        &&& cells@[k].1 == k / (g.width as int)
                        &&& cells@[k].2 == g.current[k]
                    },
                i <= cells@.len(),
                forall|k: int|
                    0 <= k < i ==> #[trigger] self.frame_buffer.glyphs@[k] == target[k],
            decreases cells@.len() - i,
        {
            let (x, y, cell) = cells[i];
            let glyph = self.glyph_set.map(cell.decay());
            proof {
                assert(g.width > 0 && (i as int) / (g.width as int) < g.height) by (nonlinear_arith)
                    requires
                        0 <= i < g.width * g.height,
                ;
                lemma_index_decompose(g.width as int, i as int);
                lemma_index_in_range(g.width as int, g.height as int, x as int, y as int);
            }
            self.frame_buffer.set(x, y, glyph);
            i = i + 1;
        }
        proof {
            assert(self.frame_buffer.glyphs@ =~= target);
        }
    }

    /// `after` and `frame` are what `next` makes of `self`: once the
    /// configured number of frames has been produced, no frame and no
    /// change; before that, the frame showing the current grid, one more
    /// generation counted, and the grid advanced by the rule's answers on
    /// it. The rule, settings and color map stay.
    pub open spec fn next_step(&self, after: Transition<R>, frame: Option<Frame>) -> bool {
        &&& self.generation_spec() >= self.max_gen_spec() ==> {
            &&& frame is None
            &&& after == *self
        }
        &&& self.generation_spec() < self.max_gen_spec() ==> {
            &&& frame is Some
            &&& frame->Some_0.width == self.grid_spec().width
            &&& frame->Some_0.height == self.grid_spec().height
            &&& frame->Some_0.glyphs@ == rendered_glyphs(self.grid_spec(), self.glyphs_spec())
            &&& after.same_settings(self)
            &&& after.color_map_spec() == self.color_map_spec()
            &&& after.generation_spec() == self.generation_spec() + 1
            &&& after.grid_spec() == self.grid_spec().advanced(
                rule_verdicts(self.rule_spec(), self.grid_value()),
                self.automata_spec().decay_rate_spec(),
            )
        }
    }

    /// The next frame: renders the current state, then advances the
    /// simulation by one generation. Returns `None` once the configured
    /// number of frames has been produced.
    pub fn next(&mut self) -> (frame: Option<Frame>)
        requires
            old(self).wf(),
        ensures
            final(self).wf(),
            old(self).next_step(*final(self), frame),
    {
        if self.current_gen >= self.max_gen {
            return None;
        }
        // Render current state
        self.render_frame();
        // Step simulation for next frame
        self.automata.step();
        self.current_gen = self.current_gen + 1;
        // Return a copy of the frame
        Some(self.frame_buffer.clone())
    }

    /// Whether a color map is attached.
    pub closed spec fn has_color_map(&self) -> bool {
        self.color_map is Some
    }

    /// The attached color map, if any.
    pub closed spec fn color_map_spec(&self) -> Option<Box<dyn ColorMap>> {
        self.color_map
    }

    /// Render the current state as text, each glyph in the color the color
    /// map gives for its cell's decay (plain text without a color map).
    /// The simulation does not advance.
    pub fn render_colored(&mut self) -> (s: String)
        requires
            old(self).wf(),
        ensures
            final(self).wf(),
            final(self).same_settings(old(self)),
            final(self).automata_spec() == old(self).automata_spec(),
            final(self).generation_spec() == old(self).generation_spec(),
            final(self).has_color_map() == old(self).has_color_map(),
            final(self).color_map_spec() == old(self).color_map_spec(),
            !old(self).has_color_map() ==> s@ == text_rows(
                rendered_glyphs(old(self).grid_spec(), old(self).glyphs_spec()),
                old(self).grid_spec().width,
                old(self).grid_spec().height,
                old(self).grid_spec().height,
            ),
            old(self).color_map_spec() matches Some(m) ==> s@ == colored_rows(
                rendered_glyphs(old(self).grid_spec(), old(self).glyphs_spec()),
                cell_colors(m, old(self).grid_spec()),
                old(self).grid_spec().width,
                old(self).grid_spec().height,
            ),
    {
        self.render_frame();
        match &self.color_map {
            None => {
                proof {
                    assert(self.frame_buffer.covers());
                }
                self.frame_buffer.render()
            },
            Some(color_map) => {
                let grid = self.automata.grid();
                let cells = grid.cells();
                let mut colors: Vec<Color> = Vec::new();
                let mut i: usize = 0;
                while i < cells.len()
                    invariant
                        i <= cells@.len(),
                        colors@.len() == i,
                        cells@.len() == grid@.current.len(),
                        forall|k: int|
                            #![trigger cells@[k]]
                            0 <= k < cells@.len() ==> cells@[k].2 == grid@.current[k],
                        forall|k: int|
                            0 <= k < i ==> #[trigger] colors@[k] == color_map.color_of(
                                grid@.current[k].decay_spec(),
                            ),
                    decreases cells@.len() - i,
                {
                    let (_, _, cell) = cells[i];
                    colors.push(color_map.map(cell.decay()));
                    i = i + 1;
                }
                let s = colored_text(
                    &self.frame_buffer.glyphs,
                    &colors,
                    self.frame_buffer.width,
                    self.frame_buffer.height,
                );
                proof {
                    assert(colors@ =~= cell_colors(*color_map, grid@));
                }
                s
            },
        }
    }

    /// Number of frames still to come
    pub fn len(&self) -> (n: usize)
        ensures
            n == remaining(self.generation_spec(), self.max_gen_spec()),
    {
        self.max_gen.saturating_sub(self.current_gen)
    }

    /// Lower and upper bound on the frames still to come (both exact)
    pub fn size_hint(&self) -> (hint: (usize, Option<usize>))
        ensures
            hint.0 == remaining(self.generation_spec(), self.max_gen_spec()),
            hint.1 == Some(hint.0),
    {
        let remaining = self.len();
        (remaining, Some(remaining))
    }

    /// All remaining frames, in order: frame `k` renders the grid `k`
    /// generations on, each generation the rule's step from the one before.
    pub fn frames(self) -> (frames: Vec<Frame>)
        requires
            self.wf(),
        ensures
            frames@.len() == remaining(self.generation_spec(), self.max_gen_spec()),
            runs(
                self.rule_spec(),
                self.grid_value(),
                self.automata_spec().decay_rate_spec(),
                self.glyphs_spec(),
                frames@,
            ),
    {
        let ghost rate = self.automata_spec().decay_rate_spec();
        let ghost glyphs = self.glyphs_spec();
        let ghost rule = self.rule_spec();
        let ghost g0 = self.grid_value();
        let ghost w = self.grid_spec().width;
        let ghost h = self.grid_spec().height;
        let ghost n0 = remaining(self.generation_spec(), self.max_gen_spec());
        let ghost mut grids: Seq<Grid> = seq![self.grid_value()];
        let mut t = self;
        let mut frames: Vec<Frame> = Vec::new();
        while t.current_gen < t.max_gen
            invariant
                t.wf(),
                t.grid_spec().width == w,
                t.grid_spec().height == h,
                frames@.len() + remaining(t.generation_spec(), t.max_gen_spec()) == n0,
                t.automata_spec().decay_rate_spec() == rate,
                t.rule_spec() == rule,
                t.glyphs_spec() == glyphs,
                grids.len() == frames@.len() + 1,
                grids[0] == g0,
                w == g0@.width,
                h == g0@.height,
                grids[frames@.len() as int] == t.grid_value(),
                forall|k: int|
                    0 <= k < frames@.len() ==> (#[trigger] grids[k + 1])@ == grids[k]@.advanced(
                        rule_verdicts(rule, grids[k]),
                        rate,
                    ),
                forall|k: int|
                    0 <= k < frames@.len() ==> {
                        &&& (#[trigger] frames@[k]).width == w
                        &&& frames@[k].height == h
                        &&& frames@[k].glyphs@ == rendered_glyphs(grids[k]@, glyphs)
                    },
            decreases t.max_gen - t.current_gen,
        {
            let f = t.next();
            match f {
                Some(frame) => {
                    proof {
                        grids = grids.push(t.grid_value());
                    }
                    frames.push(frame);
                },
                None => {},
            }
        }
        proof {
            assert(is_run(rule, g0, rate, glyphs, frames@, grids));
        }
        frames
    }
}


/// Merging overlays with OR logic: a merged cell is alive exactly when it
/// is alive in either grid (positions outside a grid count as dead there),
/// so the merged live cells do not depend on the order of the grids; live
/// cells of `start` become alive cells with full decay, cells alive only in
/// `end` alive cells with decay 128, and every other position the dead cell
/// with decay 0, whatever decay the input cells had.
pub proof fn lemma_merge_is_union(start: GridModel, end: GridModel, x: int, y: int)
    requires
        start.wf(),
        end.wf(),
        merged_model(start, end).in_bounds(x, y),
    ensures
        merged_model(start, end).alive_at(x, y) == (start.alive_at(x, y) || end.alive_at(x, y)),
        merged_model(start, end).alive_at(x, y) == merged_model(end, start).alive_at(x, y),
        start.alive_at(x, y) ==> merged_model(start, end).cell_at(x, y).decay_spec() == 255,
        !start.alive_at(x, y) && end.alive_at(x, y) ==> merged_model(start, end).cell_at(
            x,
            y,
        ).decay_spec() == 128,
        !start.alive_at(x, y) && !end.alive_at(x, y) ==> merged_model(start, end).cell_at(x, y)
            == Cell::dead_spec(),
        start.alive_at(x, y) ==> merged_model(start, end).cell_at(x, y) == Cell::make(true, 255),
        !start.alive_at(x, y) && end.alive_at(x, y) ==> merged_model(start, end).cell_at(x, y)
            == Cell::make(true, 128),
        merged_model(start, end).wf(),
{
    let m = merged_model(start, end);
    let m2 = merged_model(end, start);
    lemma_index_in_range(m.width as int, m.height as int, x, y);
    crate::engine::grid::lemma_div_mod_row(m.width as int, x, y);
    assert(m2.width == m.width && m2.height == m.height);
}

/// A fresh transition yields exactly its configured number of frames.
pub proof fn lemma_fresh_transition_yields_all(generations: nat)
    ensures
        remaining(0, generations) == generations,
{
}

/// The generation count after `k` calls of `next` on a transition created
/// with `n` generations: each call below `n` adds one, later calls none.
pub open spec fn generation_after(n: nat, k: nat) -> nat {
    if k < n {
        k
    } else {
        n
    }
}

/// A run of `next` calls from a fresh transition: if `states[0]` has
/// yielded no frame yet and each `states[j + 1]`, `frames[j]` is what `next`
/// makes of `states[j]`, then after `j` calls the transition has counted
/// `generation_after(n, j)` frames, call `j` yields a frame exactly when
/// `j < n`, `len` (both bounds of `size_hint` too) is `n - j` or 0 once
/// `j >= n`, and a call at or past `n` changes nothing.
pub proof fn lemma_next_run<R: Rule + ?Sized>(
    states: Seq<Transition<R>>,
    frames: Seq<Option<Frame>>,
)
    requires
        states.len() == frames.len() + 1,
        states[0].generation_spec() == 0,
        forall|j: int|
            0 <= j < frames.len() ==> #[trigger] states[j].next_step(states[j + 1], frames[j]),
    ensures
        forall|j: int|
            0 <= j < states.len() ==> {
                &&& (#[trigger] states[j]).max_gen_spec() == states[0].max_gen_spec()
                &&& states[j].generation_spec() == generation_after(
                    states[0].max_gen_spec(),
                    j as nat,
                )
                &&& remaining(states[j].generation_spec(), states[0].max_gen_spec()) == if j
                    < states[0].max_gen_spec() {
                    (states[0].max_gen_spec() - j) as nat
                } else {
                    0
                }
            },
        forall|j: int|
            0 <= j < frames.len() ==> ((#[trigger] frames[j]) is Some <==> j < states[0].max_gen_spec()),
        forall|j: int|
            0 <= j < frames.len() && j >= states[0].max_gen_spec() ==> #[trigger] states[j + 1]
                == states[j],
    decreases frames.len(),
{
    let n = states[0].max_gen_spec();
    if frames.len() > 0 {
        let k = frames.len() - 1;
        let s2 = states.drop_last();
        let f2 = frames.drop_last();
        assert forall|j: int| 0 <= j < f2.len() implies #[trigger] s2[j].next_step(
            s2[j + 1],
            f2[j],
        ) by {
            assert(states[j].next_step(states[j + 1], frames[j]));
        }
        lemma_next_run(s2, f2);
        assert(states[k].next_step(states[k + 1], frames[k]));
        assert(s2[k] == states[k]);
        assert(states[k].max_gen_spec() == n);
        assert forall|j: int| 0 <= j < states.len() implies {
            &&& (#[trigger] states[j]).max_gen_spec() == n
            &&& states[j].generation_spec() == generation_after(n, j as nat)
            &&& remaining(states[j].generation_spec(), n) == if j < n {
                (n - j) as nat
            } else {
                0
            }
        } by {
            if j < states.len() - 1 {
                assert(s2[j] == states[j]);
            }
        }
        assert forall|j: int| 0 <= j < frames.len() implies ((#[trigger] frames[j]) is Some
            <==> j < n) by {
            if j < k {
                assert(f2[j] == frames[j]);
            }
        }
        assert forall|j: int| 0 <= j < frames.len() && j >= n implies #[trigger] states[j + 1]
            == states[j] by {
            if j < k {
                assert(f2[j] == frames[j]);
                assert(s2[j + 1] == states[j + 1]);
                assert(s2[j] == states[j]);
            }
        }
    }
}


} // verus!

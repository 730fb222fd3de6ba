use vstd::prelude::*;

use super::morph::{merge_grids, merged_model, Transition};
use super::text::{text_fits, text_grid, text_to_grid};
use crate::color::ColorMap;
use crate::engine::automata::{Automata, DEFAULT_DECAY_RATE};
use crate::glyphs::GlyphSet;
use crate::rules::{Conway, Rule};

verus! {

/// Frames a transition yields unless configured otherwise.
pub const DEFAULT_GENERATIONS: usize = 30;

/// The settings a builder holds.
pub struct BuilderModel<R> {
    pub start: Seq<char>,
    pub end: Seq<char>,
    pub generations: nat,
    pub rule: R,
    pub glyphs: Seq<char>,
    pub color_map: Option<Box<dyn ColorMap>>,
    pub decay_rate: u8,
}

/// The settings of a fresh builder for `start` and `end`: 30 generations,
/// Conway's rule, the classic glyph set, no color map and a decay rate
/// of 32.
pub open spec fn default_settings(start: Seq<char>, end: Seq<char>) -> BuilderModel<Conway> {
    BuilderModel {
        start,
        end,
        generations: DEFAULT_GENERATIONS as nat,
        rule: Conway,
        glyphs: GlyphSet::classic_spec(),
        color_map: None,
        decay_rate: DEFAULT_DECAY_RATE,
    }
}

/// Builder for text morphing animations
///
/// Provides a fluent API for configuring and creating transitions. The
/// rule's type is a parameter (Conway's unless another rule is set), so
/// that the built transition's contract can name the configured rule.
pub struct MorphBuilder<R: Rule = Conway> {
    start: String,
    end: String,
    generations: usize,
    rule: R,
    glyph_set: GlyphSet,
    color_map: Option<Box<dyn ColorMap>>,
    decay_rate: u8,
}

impl<R: Rule> View for MorphBuilder<R> {
    type V = BuilderModel<R>;

    closed spec fn view(&self) -> BuilderModel<R> {
        BuilderModel {
            start: self.start@,
            end: self.end@,
            generations: self.generations as nat,
            rule: self.rule,
            glyphs: self.glyph_set@,
            color_map: self.color_map,
            decay_rate: self.decay_rate,
        }
    }
}

impl MorphBuilder<Conway> {
    /// Create a new morph builder
    ///
    /// Defaults: 30 generations, Conway's rule, the classic glyph set,
    /// no color map and a decay rate of 32.
    ///
    /// # Arguments
    /// * `start` - Starting text
    /// * `end` - Target text
    pub fn new(start: &str, end: &str) -> (b: MorphBuilder<Conway>)
        ensures
            b@ == default_settings(start@, end@),
    {
        MorphBuilder {
            start: String::from_str(start),
            end: String::from_str(end),
            generations: DEFAULT_GENERATIONS,
            rule: Conway,
            glyph_set: GlyphSet::classic(),
            color_map: None,
            decay_rate: DEFAULT_DECAY_RATE,
        }
    }
}

impl<R: Rule> MorphBuilder<R> {
    pub open spec fn start_spec(&self) -> Seq<char> {
        self@.start
    }

    pub open spec fn end_spec(&self) -> Seq<char> {
        self@.end
    }

    pub open spec fn generations_spec(&self) -> nat {
        self@.generations
    }

    pub open spec fn rule_spec(&self) -> R {
        self@.rule
    }

    pub open spec fn glyphs_spec(&self) -> Seq<char> {
        self@.glyphs
    }

    pub open spec fn decay_rate_spec(&self) -> u8 {
        self@.decay_rate
    }

    pub open spec fn color_map_spec(&self) -> Option<Box<dyn ColorMap>> {
        self@.color_map
    }

    pub open spec fn has_color_map(&self) -> bool {
        self@.color_map is Some
    }

    /// The starting text.
    pub fn start_text(&self) -> (s: &str)
        ensures
            s@ == self.start_spec(),
    {
        self.start.as_str()
    }

    /// The target text.
    pub fn end_text(&self) -> (s: &str)
        ensures
            s@ == self.end_spec(),
    {
        self.end.as_str()
    }

    /// Number of frames the built transition yields.
    pub fn generation_count(&self) -> (n: usize)
        ensures
            n == self.generations_spec(),
    {
        self.generations
    }

    /// The configured decay rate.
    pub fn configured_decay_rate(&self) -> (r: u8)
        ensures
            r == self.decay_rate_spec(),
    {
        self.decay_rate
    }

    /// Set number of generations (frames) to generate
    pub fn generations(self, n: usize) -> (b: MorphBuilder<R>)
        ensures
            b@ == (BuilderModel { generations: n as nat, ..self@ }),
    {
        let mut b = self;
        b.generations = n;
        b
    }

    /// Set the cellular automata rule
    pub fn rule<S: Rule + 'static>(self, rule: S) -> (b: MorphBuilder<S>)
        ensures
            b@ == (BuilderModel {
                start: self@.start,
                end: self@.end,
                generations: self@.generations,
                rule,
                glyphs: self@.glyphs,
                color_map: self@.color_map,
                decay_rate: self@.decay_rate,
            }),
    {
        let MorphBuilder { start, end, generations, rule: _, glyph_set, color_map, decay_rate } =
            self;
        MorphBuilder { start, end, generations, rule, glyph_set, color_map, decay_rate }
    }

    /// Set the glyph set for rendering
    pub fn glyph_set(self, set: GlyphSet) -> (b: MorphBuilder<R>)
        ensures
            b@ == (BuilderModel { glyphs: set@, ..self@ }),
            b.glyphs_spec().len() >= 2,
    {
        proof {
            use_type_invariant(&set);
            set.lemma_enough_glyphs();
        }
        let mut b = self;
        b.glyph_set = set;
        b
    }

    /// Set color map for colored output
    pub fn color_map(self, color_map: impl ColorMap + 'static) -> (b: MorphBuilder<R>)
        ensures
            b@ == (BuilderModel {
                color_map: Some::<Box<dyn ColorMap>>(Box::new(color_map)),
                ..self@
            }),
    {
        let mut b = self;
        b.color_map = Some(Box::new(color_map));
        b
    }

    /// Set decay rate (how fast visual transitions happen)
    ///
    /// Higher values = faster transitions
    pub fn decay_rate(self, rate: u8) -> (b: MorphBuilder<R>)
        ensures
            b@ == (BuilderModel { decay_rate: rate, ..self@ }),
    {
        let mut b = self;
        b.decay_rate = rate;
        b
    }
}

impl<R: Rule + 'static> MorphBuilder<R> {
    /// Build the transition
    ///
    /// Both texts are drawn with the built-in font and overlaid; the
    /// automaton starts from the overlay with the configured rule and
    /// decay rate, and the transition yields the configured number of
    /// frames, rendered with the configured glyphs and color map.
    pub fn build(self) -> (t: Transition<R>)
        requires
            text_fits(self.start_spec()),
            text_fits(self.end_spec()),
        ensures
            t.wf(),
            t.grid_spec() == merged_model(
                text_grid(self.start_spec()),
                text_grid(self.end_spec()),
            ),
            *t.rule_spec() == self.rule_spec(),
            t.automata_spec().decay_rate_spec() == self.decay_rate_spec(),
            t.glyphs_spec() == self.glyphs_spec(),
            t.generation_spec() == 0,
            t.max_gen_spec() == self.generations_spec(),
            t.has_color_map() == self.has_color_map(),
            t.color_map_spec() == self.color_map_spec(),
    {
        // Convert text to grids
        let start_grid = text_to_grid(self.start.as_str());
        let end_grid = text_to_grid(self.end.as_str());
        proof {
            let s = text_grid(self.start_spec());
            let e = text_grid(self.end_spec());
            assert(s.width * 5 <= usize::MAX);
            assert(e.width * 5 <= usize::MAX);
        }
        // Merge grids for initial state
        let grid = merge_grids(&start_grid, &end_grid);
        // Create automata
        let automata = Automata::new(grid, Box::new(self.rule)).with_decay_rate(self.decay_rate);
        // Build transition
        let transition = Transition::new(automata, self.glyph_set, self.generations);
        // Add color map if provided
        transition.with_color_map_option(self.color_map)
    }
}

/// Convenience function for creating text morphing animations
///
/// The builder it returns is the one `MorphBuilder::new` returns.
pub fn morph(start: &str, end: &str) -> (b: MorphBuilder<Conway>)
    ensures
        b@ == default_settings(start@, end@),
{
    MorphBuilder::new(start, end)
}

} // verus!

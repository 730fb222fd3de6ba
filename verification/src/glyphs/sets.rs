use vstd::prelude::*;

verus! {

/// Position in a set of `len` glyphs for a decay value: the decay scaled
/// from 255..0 onto 0..len-1 and rounded to the nearest index (the scaled
/// value never lies exactly halfway between two indices).
pub open spec fn glyph_index(decay: u8, len: nat) -> int {
    ((255 - decay) * (len - 1) * 2 + 255) / 510
}

/// Set of glyphs for rendering cell decay states
///
/// Maps decay values (0-255) to visual characters, creating smooth transitions
/// from "alive" to "dead" states.
#[derive(Debug)]
pub struct GlyphSet {
    /// Glyphs from most alive to most dead
    /// Index 0 = fully alive (decay 255)
    /// Index last = fully dead (decay 0)
    glyphs: Vec<char>,
}

impl View for GlyphSet {
    type V = Seq<char>;

    closed spec fn view(&self) -> Seq<char> {
        self.glyphs@
    }
}

impl Clone for GlyphSet {
    fn clone(&self) -> (c: GlyphSet)
        ensures
            c@ == self@,
    {
        proof {
            use_type_invariant(self);
        }
        GlyphSet { glyphs: self.glyphs.clone() }
    }
}

/// Error type for GlyphSet operations
#[derive(Debug, Clone, PartialEq, Eq)]
pub enum GlyphSetError {
    /// Glyph set must have at least 2 glyphs
    TooFewGlyphs,
}

impl GlyphSetError {
    /// The error's message.
    pub fn message(&self) -> (m: String)
        ensures
            m@ == "glyph set must have at least 2 glyphs"@,
    {
        match self {
            GlyphSetError::TooFewGlyphs => String::from_str("glyph set must have at least 2 glyphs"),
        }
    }
}

impl GlyphSet {
    #[verifier::type_invariant]
    pub closed spec fn enough_glyphs(self) -> bool {
        self.glyphs@.len() >= 2
    }

    /// A glyph set holds at least two glyphs.
    pub proof fn lemma_enough_glyphs(&self)
        requires
            self.enough_glyphs(),
        ensures
            self@.len() >= 2,
    {
    }

    /// Create a custom glyph set
    ///
    /// # Arguments
    /// * `glyphs` - Characters from most alive to most dead (min 2 glyphs)
    ///
    /// # Errors
    /// Returns error if fewer than 2 glyphs provided
    pub fn new(glyphs: Vec<char>) -> (r: Result<GlyphSet, GlyphSetError>)
        ensures
            glyphs@.len() < 2 ==> r == Err::<GlyphSet, GlyphSetError>(GlyphSetError::TooFewGlyphs),
            glyphs@.len() >= 2 ==> r is Ok && r->Ok_0@ == glyphs@,
    {
        if glyphs.len() < 2 {
            return Err(GlyphSetError::TooFewGlyphs);
        }
        Ok(GlyphSet { glyphs })
    }

    /// Map decay value to glyph
    ///
    /// * `decay` - Decay value (0-255)
    ///   - 255 → first glyph (most alive)
    ///   - 0 → last glyph (most dead)
    pub fn map(&self, decay: u8) -> (c: char)
        ensures
            0 <= glyph_index(decay, self@.len()) < self@.len(),
            c == self@[glyph_index(decay, self@.len())],
    {
        let idx = self.decay_to_index(decay);
        self.glyphs[idx]
    }

    /// Convert decay value to glyph index
    pub fn decay_to_index(&self, decay: u8) -> (idx: usize)
        ensures
            idx == glyph_index(decay, self@.len()),
            idx < self@.len(),
    {
        proof {
            use_type_invariant(self);
        }
        let last: u128 = (self.glyphs.len() - 1) as u128;
        let inverted: u128 = (255 - decay) as u128;
        proof {
            assert(inverted * last <= 255 * last) by (nonlinear_arith)
                requires
                    inverted <= 255,
            ;
        }
        let scaled: u128 = inverted * last * 2 + 255;
        let idx: u128 = scaled / 510;
        proof {
            assert(idx <= last) by (nonlinear_arith)
                requires
                    idx == scaled / 510,
                    scaled == inverted * last * 2 + 255,
                    inverted <= 255,
                    inverted * last <= 255 * last,
            ;
        }
        idx as usize
    }

    /// Number of glyphs in this set
    pub fn len(&self) -> (n: usize)
        ensures
            n == self@.len(),
            n >= 2,
    {
        proof {
            use_type_invariant(self);
        }
        self.glyphs.len()
    }

    /// Check if glyph set is empty (never true for a valid set)
    pub fn is_empty(&self) -> (b: bool)
        ensures
            b == (self@.len() == 0),
            !b,
    {
        proof {
            use_type_invariant(self);
        }
        self.glyphs.len() == 0
    }

    // Preset glyph sets

    /// The glyphs of the classic set.
    pub open spec fn classic_spec() -> Seq<char> {
        seq!['█', '▓', '▒', '░', '·', ' ']
    }

    /// Classic block gradient: █ ▓ ▒ ░ · ' '
    pub fn classic() -> (s: GlyphSet)
        ensures
            s@ == GlyphSet::classic_spec(),
    {
        GlyphSet { glyphs: vec!['█', '▓', '▒', '░', '·', ' '] }
    }

    /// Cyberpunk aesthetic: ▰ ▓ ▒ ░ ▱ · ' '
    pub fn cyberpunk() -> (s: GlyphSet)
        ensures
            s@ == seq!['▰', '▓', '▒', '░', '▱', '·', ' '],
    {
        GlyphSet { glyphs: vec!['▰', '▓', '▒', '░', '▱', '·', ' '] }
    }

    /// Matrix style: @ # + * · ' '
    pub fn matrix() -> (s: GlyphSet)
        ensures
            s@ == seq!['@', '#', '+', '*', '·', ' '],
    {
        GlyphSet { glyphs: vec!['@', '#', '+', '*', '·', ' '] }
    }

    /// Dot density: ● ◉ ○ ∘ · ' '
    pub fn dots() -> (s: GlyphSet)
        ensures
            s@ == seq!['●', '◉', '○', '∘', '·', ' '],
    {
        GlyphSet { glyphs: vec!['●', '◉', '○', '∘', '·', ' '] }
    }

    /// Binary: 1 ░ ' '
    pub fn binary() -> (s: GlyphSet)
        ensures
            s@ == seq!['1', '░', ' '],
    {
        GlyphSet { glyphs: vec!['1', '░', ' '] }
    }

    /// ASCII-safe: # + . ' '
    pub fn ascii() -> (s: GlyphSet)
        ensures
            s@ == seq!['#', '+', '.', ' '],
    {
        GlyphSet { glyphs: vec!['#', '+', '.', ' '] }
    }
}

/// The extremes of the decay range pick the ends of a glyph set: decay 255
/// (fully alive) maps to the first glyph and decay 0 (fully dead) to the last.
pub proof fn lemma_glyph_index_extremes(len: nat)
    requires
        len >= 1,
    ensures
        glyph_index(255, len) == 0,
        glyph_index(0, len) == len - 1,
{
    assert(((255 - 0) * (len - 1) * 2 + 255) / 510 == len - 1) by (nonlinear_arith)
        requires
            len >= 1,
    ;
}

/// A higher decay never maps to a later glyph: the glyph index is
/// non-increasing in the decay, and always a valid position.
pub proof fn lemma_glyph_index_monotonic(d1: u8, d2: u8, len: nat)
    requires
        len >= 1,
        d1 <= d2,
    ensures
        glyph_index(d2, len) <= glyph_index(d1, len),
        0 <= glyph_index(d1, len) < len,
{
    let a1 = (255 - d1) * (len - 1) * 2 + 255;
    let a2 = (255 - d2) * (len - 1) * 2 + 255;
    assert(a2 <= a1) by (nonlinear_arith)
        requires
            d1 <= d2,
            d2 <= 255,
            len >= 1,
            a1 == (255 - d1) * (len - 1) * 2 + 255,
            a2 == (255 - d2) * (len - 1) * 2 + 255,
    ;
    assert(0 <= a2) by (nonlinear_arith)
        requires
            d2 <= 255,
            len >= 1,
            a2 == (255 - d2) * (len - 1) * 2 + 255,
    ;
    vstd::arithmetic::div_mod::lemma_div_is_ordered(a2, a1, 510);
    assert(a1 / 510 < len) by (nonlinear_arith)
        requires
            d1 <= 255,
            len >= 1,
            a1 == (255 - d1) * (len - 1) * 2 + 255,
    ;
    vstd::arithmetic::div_mod::lemma_div_pos_is_pos(a1, 510);
}

/// A decay maps to the glyph nearest its place on the scale: with `len`
/// glyphs, decay `d` sits at `(255 - d) * (len - 1) / 255`, and the index
/// chosen is less than half a step away from it (scaled by 510 below).
pub proof fn lemma_glyph_index_nearest(decay: u8, len: nat)
    requires
        len >= 1,
    ensures
        -255 < 510 * glyph_index(decay, len) - (255 - decay) * (len - 1) * 2 < 255,
{
    let m: int = (255 - decay) * (len - 1);
    let idx = glyph_index(decay, len);
    assert(m >= 0) by (nonlinear_arith)
        requires
            m == (255 - decay) * (len - 1),
            decay <= 255,
            len >= 1,
    ;
    assert(idx == (m * 2 + 255) / 510);
    assert(510 * idx <= m * 2 + 255 < 510 * idx + 510) by (nonlinear_arith)
        requires
            idx == (m * 2 + 255) / 510,
            m >= 0,
    ;
    let k = 255 * idx - m;
    assert(2 * k != 255);
}

} // verus!

use vstd::prelude::*;

use crate::strings::{clear_string, push_char};

verus! {

/// The glyph at (x, y) of a `width` x `height` block of glyphs stored
/// row by row; positions outside it read as a space.
pub open spec fn text_glyph(glyphs: Seq<char>, width: nat, height: nat, x: int, y: int) -> char {
    if 0 <= x < width && 0 <= y < height {
        glyphs[y * width + x]
    } else {
        ' '
    }
}

/// Row `y` of the block as characters.
pub open spec fn text_row(glyphs: Seq<char>, width: nat, height: nat, y: int) -> Seq<char> {
    Seq::new(width, |x: int| text_glyph(glyphs, width, height, x, y))
}

/// The first `k` rows of the block, separated (not terminated) by newlines.
pub open spec fn text_rows(glyphs: Seq<char>, width: nat, height: nat, k: nat) -> Seq<char>
    decreases k,
{
    if k == 0 {
        Seq::empty()
    } else if k == 1 {
        text_row(glyphs, width, height, 0)
    } else {
        text_rows(glyphs, width, height, (k - 1) as nat) + seq!['\n'] + text_row(
            glyphs,
            width,
            height,
            k - 1,
        )
    }
}

/// A single rendered frame
///
/// Contains the visual representation of a grid state as glyphs, stored
/// row by row (index = y * width + x).
#[derive(Debug, PartialEq, Eq)]
pub struct Frame {
    pub width: usize,
    pub height: usize,
    pub glyphs: Vec<char>,
}

impl Clone for Frame {
    fn clone(&self) -> (f: Frame)
        ensures
            f.width == self.width,
            f.height == self.height,
            f.glyphs@ == self.glyphs@,
    {
        Frame { width: self.width, height: self.height, glyphs: self.glyphs.clone() }
    }
}

impl Frame {
    /// Every in-bounds position lies inside the glyph buffer.
    pub open spec fn covers(&self) -> bool {
        self.width * self.height <= self.glyphs@.len()
    }

    /// The buffer slot of (x, y) exists when (x, y) is in bounds.
    pub open spec fn slot_ok(&self, x: int, y: int) -> bool {
        0 <= x < self.width && 0 <= y < self.height ==> y * self.width + x < self.glyphs@.len()
    }

    /// The glyph at (x, y); positions outside the frame read as a space.
    pub open spec fn glyph_at(&self, x: int, y: int) -> char {
        text_glyph(self.glyphs@, self.width as nat, self.height as nat, x, y)
    }

    /// Row `y` as characters.
    pub open spec fn row(&self, y: int) -> Seq<char> {
        text_row(self.glyphs@, self.width as nat, self.height as nat, y)
    }

    /// The first `k` rows, separated (not terminated) by newlines.
    pub open spec fn rows_text(&self, k: nat) -> Seq<char> {
        text_rows(self.glyphs@, self.width as nat, self.height as nat, k)
    }

    /// The whole frame as text: its rows separated by newlines.
    pub open spec fn rendered(&self) -> Seq<char> {
        text_rows(self.glyphs@, self.width as nat, self.height as nat, self.height as nat)
    }

    /// Create a new frame filled with spaces
    pub fn new(width: usize, height: usize) -> (f: Frame)
        requires
            width * height <= usize::MAX,
        ensures
            f.width == width,
            f.height == height,
            f.glyphs@ == Seq::new((width * height) as nat, |i: int| ' '),
    {
        let size = width * height;
        let mut glyphs: Vec<char> = Vec::new();
        let mut k: usize = 0;
        while k < size
            invariant
                k <= size,
                glyphs@ == Seq::new(k as nat, |i: int| ' '),
            decreases size - k,
        {
            glyphs.push(' ');
            k = k + 1;
        }
        Frame { width, height, glyphs }
    }

    /// Get glyph at (x, y)
    ///
    /// Returns space if out of bounds
    pub fn get(&self, x: usize, y: usize) -> (c: char)
        requires
            self.slot_ok(x as int, y as int),
        ensures
            c == self.glyph_at(x as int, y as int),
    {
        if x >= self.width || y >= self.height {
            return ' ';
        }
        proof {
            assert(y * self.width <= y * self.width + x);
            // A Vec's length fits in a usize.
            assert(self.glyphs@.len() == self.glyphs.len());
        }
        self.glyphs[y * self.width + x]
    }

    /// Set glyph at (x, y); positions outside the frame are ignored
    pub fn set(&mut self, x: usize, y: usize, glyph: char)
        requires
            old(self).slot_ok(x as int, y as int),
        ensures
            final(self).width == old(self).width,
            final(self).height == old(self).height,
            final(self).glyphs@ == if x < old(self).width && y < old(self).height {
                old(self).glyphs@.update(y * old(self).width + x, glyph)
            } else {
                old(self).glyphs@
            },
    {
        if x < self.width && y < self.height {
            proof {
                // A Vec's length fits in a usize.
                assert(self.glyphs@.len() == self.glyphs.len());
            }
            let i = y * self.width + x;
            self.glyphs.set(i, glyph);
        }
    }

    /// Render frame as string (for terminal output)
    ///
    /// Rows are separated by newlines.
    pub fn render(&self) -> (s: String)
        requires
            self.covers(),
        ensures
            s@ == self.rendered(),
    {
        let mut output = String::new();
        self.render_rows(&mut output);
        output
    }

    /// Render frame into a caller-provided buffer, replacing its contents
    pub fn render_into(&self, buffer: &mut String)
        requires
            self.covers(),
        ensures
            final(buffer)@ == self.rendered(),
    {
        clear_string(buffer);
        self.render_rows(buffer);
    }

    /// Appends the rendered frame to `output`.
    fn render_rows(&self, output: &mut String)
        requires
            self.covers(),
        ensures
            final(output)@ == old(output)@ + self.rendered(),
    {
        let ghost base = old(output)@;
        let mut y: usize = 0;
        while y < self.height
            invariant
                y <= self.height,
                self.covers(),
                output@ == base + self.text_upto(y as nat),
            decreases self.height - y,
        {
            let mut x: usize = 0;
            while x < self.width
                invariant
                    x <= self.width,
                    y < self.height,
                    self.covers(),
                    output@ == base + self.text_upto(y as nat) + self.row(y as int).take(x as int),
                decreases self.width - x,
            {
                proof {
                    crate::engine::grid::lemma_index_in_range(
                        self.width as int,
                        self.height as int,
                        x as int,
                        y as int,
                    );
                    assert(self.row(y as int).take(x as int + 1) =~= self.row(y as int).take(
                        x as int,
                    ).push(self.glyph_at(x as int, y as int)));
                }
                let c = self.get(x, y);
                push_char(output, c);
                x = x + 1;
            }
            proof {
                assert(self.row(y as int).take(self.width as int) =~= self.row(y as int));
            }
            if y < self.height - 1 {
                push_char(output, '\n');
            }
            proof {
                self.lemma_text_upto_step(y as nat);
            }
            y = y + 1;
        }
        proof {
            assert(self.text_upto(self.height as nat) == self.rendered());
        }
    }

    /// The text produced after the first `k` rows: those rows, each followed
    /// by a newline except the last row of the frame.
    spec fn text_upto(&self, k: nat) -> Seq<char> {
        if k == 0 {
            Seq::empty()
        } else if k < self.height {
            self.rows_text(k) + seq!['\n']
        } else {
            self.rows_text(k)
        }
    }

    proof fn lemma_text_upto_step(&self, y: nat)
        requires
            y < self.height,
        ensures
            self.text_upto(y + 1) == self.text_upto(y) + self.row(y as int) + if y + 1
                < self.height {
                seq!['\n']
            } else {
                Seq::empty()
            },
    {
        if y == 0 {
            assert(self.rows_text(1) == self.row(0));
            assert(Seq::<char>::empty() + self.row(0) =~= self.row(0));
            assert(self.row(0) + Seq::<char>::empty() =~= self.row(0));
        } else {
            assert(self.rows_text(y + 1) == self.rows_text(y) + seq!['\n'] + self.row(y as int));
            assert(self.rows_text(y) + seq!['\n'] + self.row(y as int) + Seq::<char>::empty()
                =~= self.rows_text(y) + seq!['\n'] + self.row(y as int));
        }
    }
}

/// A rendered frame of at least one row holds `height` rows of `width`
/// glyphs and `height - 1` newlines.
pub proof fn lemma_rendered_length(frame: Frame)
    requires
        frame.height >= 1,
    ensures
        frame.rendered().len() == frame.height * frame.width + frame.height - 1,
{
    lemma_rows_text_length(frame, frame.height as nat);
}

proof fn lemma_rows_text_length(frame: Frame, k: nat)
    requires
        k >= 1,
    ensures
        frame.rows_text(k).len() == k * frame.width + k - 1,
    decreases k,
{
    assert(frame.row(k - 1).len() == frame.width);
    if k > 1 {
        lemma_rows_text_length(frame, (k - 1) as nat);
        assert((k - 1) * frame.width + frame.width == k * frame.width) by (nonlinear_arith);
        assert(frame.rows_text(k) == frame.rows_text((k - 1) as nat) + seq!['\n'] + frame.row(
            k - 1,
        ));
    } else {
        assert(frame.rows_text(1) == frame.row(0));
    }
}

/// Rendering lays the frame out row by row: in the text, the glyph at
/// (x, y) stands at position `y * (width + 1) + x`, and each row but the
/// last is followed by a newline at `y * (width + 1) + width`.
pub proof fn lemma_rendered_layout(frame: Frame)
    requires
        frame.height >= 1,
    ensures
        forall|x: int, y: int|
            0 <= x < frame.width && 0 <= y < frame.height ==> #[trigger] frame.rendered()[y * (
            frame.width + 1) + x] == frame.glyph_at(x, y),
        forall|y: int|
            0 <= y < frame.height - 1 ==> #[trigger] frame.rendered()[y * (frame.width + 1)
                + frame.width] == '\n',
{
    lemma_rows_text_layout(frame, frame.height as nat);
}

proof fn lemma_rows_text_layout(frame: Frame, k: nat)
    requires
        k >= 1,
    ensures
        frame.rows_text(k).len() == k * frame.width + k - 1,
        forall|x: int, y: int|
            0 <= x < frame.width && 0 <= y < k ==> #[trigger] frame.rows_text(k)[y * (frame.width
                + 1) + x] == frame.glyph_at(x, y),
        forall|y: int|
            0 <= y < k - 1 ==> #[trigger] frame.rows_text(k)[y * (frame.width + 1) + frame.width]
                == '\n',
    decreases k,
{
    let w = frame.width as int;
    lemma_rows_text_length(frame, k);
    if k == 1 {
        assert(frame.rows_text(1) == frame.row(0));
        assert forall|x: int, y: int| 0 <= x < w && 0 <= y < 1 implies #[trigger] frame.rows_text(
            1,
        )[y * (w + 1) + x] == frame.glyph_at(x, y) by {
            assert(y == 0);
        }
    } else {
        let prev = frame.rows_text((k - 1) as nat);
        lemma_rows_text_layout(frame, (k - 1) as nat);
        let whole = frame.rows_text(k);
        assert(whole == prev + seq!['\n'] + frame.row(k - 1));
        let base = (k - 1) * (w + 1);
        assert(prev.len() == base - 1) by (nonlinear_arith)
            requires
                prev.len() == (k - 1) * w + (k - 1) - 1,
                base == (k - 1) * (w + 1),
        ;
        assert forall|x: int, y: int| 0 <= x < w && 0 <= y < k implies #[trigger] whole[y * (w
            + 1) + x] == frame.glyph_at(x, y) by {
            if y < k - 1 {
                assert(y * (w + 1) + x < base - 1) by (nonlinear_arith)
                    requires
                        0 <= x < w,
                        0 <= y < k - 1,
                        base == (k - 1) * (w + 1),
                ;
                assert(whole[y * (w + 1) + x] == prev[y * (w + 1) + x]);
            } else {
                assert(y * (w + 1) + x == base + x);
                assert(whole[base + x] == frame.row(k - 1)[x]);
            }
        }
        assert forall|y: int| 0 <= y < k - 1 implies #[trigger] whole[y * (w + 1) + w] == '\n' by {
            if y < k - 2 {
                assert(y * (w + 1) + w < base - 1) by (nonlinear_arith)
                    requires
                        0 <= y < k - 2,
                        base == (k - 1) * (w + 1),
                        w >= 0,
                ;
                assert(whole[y * (w + 1) + w] == prev[y * (w + 1) + w]);
            } else {
                assert(y * (w + 1) + w == base - 1) by (nonlinear_arith)
                    requires
                        y == k - 2,
                        base == (k - 1) * (w + 1),
                ;
            }
        }
    }
}

} // verus!

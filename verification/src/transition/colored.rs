use vstd::prelude::*;

use crate::color::rgb::{ansi_color_code, ansi_reset, push_color_code, Color};
use crate::strings::push_char;

verus! {

/// One glyph in its color: the foreground escape sequence, the glyph,
/// then the reset sequence.
pub open spec fn colored_cell(glyph: char, color: Color) -> Seq<char> {
    color.fg_code() + seq![glyph] + ansi_reset()
}

/// The first `k` cells of row `y` in color.
pub open spec fn colored_row(
    glyphs: Seq<char>,
    colors: Seq<Color>,
    width: nat,
    y: int,
    k: nat,
) -> Seq<char>
    decreases k,
{
    if k == 0 {
        Seq::empty()
    } else {
        colored_row(glyphs, colors, width, y, (k - 1) as nat) + colored_cell(
            glyphs[y * width + k - 1],
            colors[y * width + k - 1],
        )
    }
}

/// The first `k` rows in color, separated (not terminated) by newlines.
pub open spec fn colored_rows(glyphs: Seq<char>, colors: Seq<Color>, width: nat, k: nat) -> Seq<
    char,
>
    decreases k,
{
    if k == 0 {
        Seq::empty()
    } else if k == 1 {
        colored_row(glyphs, colors, width, 0, width)
    } else {
        colored_rows(glyphs, colors, width, (k - 1) as nat) + seq!['\n'] + colored_row(
            glyphs,
            colors,
            width,
            k - 1,
            width,
        )
    }
}

/// The text after the first `k` rows: those rows, each followed by a
/// newline except the last row.
spec fn colored_upto(glyphs: Seq<char>, colors: Seq<Color>, width: nat, height: nat, k: nat) -> Seq<
    char,
> {
    if k == 0 {
        Seq::empty()
    } else if k < height {
        colored_rows(glyphs, colors, width, k) + seq!['\n']
    } else {
        colored_rows(glyphs, colors, width, k)
    }
}

/// Appends the reset sequence.
fn push_reset(s: &mut String)
    ensures
        final(s)@ == old(s)@ + ansi_reset(),
{
    let ghost start = s@;
    push_char(s, '\x1b');
    push_char(s, '[');
    push_char(s, '0');
    push_char(s, 'm');
    proof {
        assert(s@ =~= start + ansi_reset());
    }
}

/// Render `height` rows of `width` glyphs, each glyph wrapped in its color:
/// glyph `i` (row by row) is drawn in `colors[i]`, rows are separated by
/// newlines.
pub fn colored_text(glyphs: &Vec<char>, colors: &Vec<Color>, width: usize, height: usize) -> (s:
    String)
    requires
        glyphs@.len() == width * height,
        colors@.len() == width * height,
    ensures
        s@ == colored_rows(glyphs@, colors@, width as nat, height as nat),
{
    let mut s = String::new();
    let mut y: usize = 0;
    while y < height
        invariant
            y <= height,
            glyphs@.len() == width * height,
            colors@.len() == width * height,
            s@ == colored_upto(glyphs@, colors@, width as nat, height as nat, y as nat),
        decreases height - y,
    {
        let ghost row_start = s@;
        let mut x: usize = 0;
        while x < width
            invariant
                x <= width,
                y < height,
                glyphs@.len() == width * height,
                colors@.len() == width * height,
                s@ == row_start + colored_row(glyphs@, colors@, width as nat, y as int, x as nat),
            decreases width - x,
        {
            proof {
                crate::engine::grid::lemma_index_in_range(
                    width as int,
                    height as int,
                    x as int,
                    y as int,
                );
                // A Vec's length fits in a usize.
                assert(glyphs@.len() == glyphs.len());
            }
            let i = y * width + x;
            let c = colors[i];
            let ghost before = s@;
            push_color_code(&mut s, '3', c.r, c.g, c.b);
            push_char(&mut s, glyphs[i]);
            push_reset(&mut s);
            proof {
                assert(s@ =~= before + colored_cell(glyphs@[i as int], c));
            }
            x = x + 1;
        }
        if y < height - 1 {
            push_char(&mut s, '\n');
        }
        proof {
            let k = y as nat;
            let row = colored_row(glyphs@, colors@, width as nat, y as int, width as nat);
            if k == 0 {
                assert(colored_rows(glyphs@, colors@, width as nat, 1) == row);
                assert(Seq::<char>::empty() + row =~= row);
            } else {
                assert(colored_rows(glyphs@, colors@, width as nat, k + 1) == colored_rows(
                    glyphs@,
                    colors@,
                    width as nat,
                    k,
                ) + seq!['\n'] + row);
            }
            if k + 1 < height {
                assert(s@ =~= colored_upto(
                    glyphs@,
                    colors@,
                    width as nat,
                    height as nat,
                    k + 1,
                ));
            } else {
                assert(s@ =~= colored_upto(
                    glyphs@,
                    colors@,
                    width as nat,
                    height as nat,
                    k + 1,
                ));
            }
        }
        y = y + 1;
    }
    s
}

/// A colored row is its cells in order, left to right: cell `x` of row `y`
/// is glyph `y * width + x` wrapped in color `y * width + x`.
pub proof fn lemma_colored_row_cells(
    glyphs: Seq<char>,
    colors: Seq<Color>,
    width: nat,
    y: int,
    k: nat,
)
    ensures
        colored_row(glyphs, colors, width, y, k) == Seq::new(
            k,
            |x: int| colored_cell(glyphs[y * width + x], colors[y * width + x]),
        ).flatten_alt(),
    decreases k,
{
    let cells = Seq::new(
        k,
        |x: int| colored_cell(glyphs[y * width + x], colors[y * width + x]),
    );
    if k > 0 {
        lemma_colored_row_cells(glyphs, colors, width, y, (k - 1) as nat);
        assert(cells.drop_last() =~= Seq::new(
            (k - 1) as nat,
            |x: int| colored_cell(glyphs[y * width + x], colors[y * width + x]),
        ));
    } else {
        assert(cells =~= Seq::<Seq<char>>::empty());
    }
}

} // verus!

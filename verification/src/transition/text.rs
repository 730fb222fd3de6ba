use vstd::prelude::*;

use crate::engine::cell::Cell;
use crate::engine::grid::{Grid, GridModel};
use crate::strings::{ascii_upper, chars_of, to_ascii_uppercase};

verus! {

/// Width of one character of the built-in font, in cells.
pub const CHAR_WIDTH: usize = 3;

/// Height of the built-in font, in cells.
pub const CHAR_HEIGHT: usize = 5;

/// Columns between neighboring characters.
pub const CHAR_SPACING: usize = 1;

/// The built-in 3x5 bitmap of a character, row by row: letters are drawn
/// case-insensitively, a space is blank, and any other character is a
/// hollow box.
pub open spec fn glyph_pattern(c: char) -> Seq<Seq<bool>> {
    let u = ascii_upper(c);
    if u == 'A' {
        seq![
            seq![false, true, false],
            seq![true, false, true],
            seq![true, true, true],
            seq![true, false, true],
            seq![true, false, true],
        ]
    } else if u == 'C' {
        seq![
            seq![false, true, true],
            seq![true, false, false],
            seq![true, false, false],
            seq![true, false, false],
            seq![false, true, true],
        ]
    } else if u == 'E' {
        seq![
            seq![true, true, true],
            seq![true, false, false],
            seq![true, true, true],
            seq![true, false, false],
            seq![true, true, true],
        ]
    } else if u == 'L' {
        seq![
            seq![true, false, false],
            seq![true, false, false],
            seq![true, false, false],
            seq![true, false, false],
            seq![true, true, true],
        ]
    } else if u == 'M' {
        seq![
            seq![true, false, true],
            seq![true, true, true],
            seq![true, true, true],
            seq![true, false, true],
            seq![true, false, true],
        ]
    } else if u == 'O' {
        seq![
            seq![false, true, false],
            seq![true, false, true],
            seq![true, false, true],
            seq![true, false, true],
            seq![false, true, false],
        ]
    } else if u == 'P' {
        seq![
            seq![true, true, false],
            seq![true, false, true],
            seq![true, true, false],
            seq![true, false, false],
            seq![true, false, false],
        ]
    } else if u == 'S' {
        seq![
            seq![false, true, true],
            seq![true, false, false],
            seq![false, true, false],
            seq![false, false, true],
            seq![true, true, false],
        ]
    } else if u == 'T' {
        seq![
            seq![true, true, true],
            seq![false, true, false],
            seq![false, true, false],
            seq![false, true, false],
            seq![false, true, false],
        ]
    } else if u == ' ' {
        seq![
            seq![false, false, false],
            seq![false, false, false],
            seq![false, false, false],
            seq![false, false, false],
            seq![false, false, false],
        ]
    } else {
        seq![
            seq![true, true, true],
            seq![true, false, true],
            seq![true, false, true],
            seq![true, false, true],
            seq![true, true, true],
        ]
    }
}

/// Simple 3x5 bitmap font for ASCII characters
///
/// Each character is represented as a 3-column by 5-row bitmap.
pub fn char_to_bitmap(ch: char) -> (bitmap: [[bool; 3]; 5])
    ensures
        forall|r: int, k: int|
            0 <= r < 5 && 0 <= k < 3 ==> #[trigger] bitmap@[r]@[k] == glyph_pattern(ch)[r][k],
{
    match to_ascii_uppercase(ch) {
        'A' => [
            [false, true, false],
            [true, false, true],
            [true, true, true],
            [true, false, true],
            [true, false, true],
        ],
        'C' => [
            [false, true, true],
            [true, false, false],
            [true, false, false],
            [true, false, false],
            [false, true, true],
        ],
        'E' => [
            [true, true, true],
            [true, false, false],
            [true, true, true],
            [true, false, false],
            [true, true, true],
        ],
        'L' => [
            [true, false, false],
            [true, false, false],
            [true, false, false],
            [true, false, false],
            [true, true, true],
        ],
        'M' => [
            [true, false, true],
            [true, true, true],
            [true, true, true],
            [true, false, true],
            [true, false, true],
        ],
        'O' => [
            [false, true, false],
            [true, false, true],
            [true, false, true],
            [true, false, true],
            [false, true, false],
        ],
        'P' => [
            [true, true, false],
            [true, false, true],
            [true, true, false],
            [true, false, false],
            [true, false, false],
        ],
        'S' => [
            [false, true, true],
            [true, false, false],
            [false, true, false],
            [false, false, true],
            [true, true, false],
        ],
        'T' => [
            [true, true, true],
            [false, true, false],
            [false, true, false],
            [false, true, false],
            [false, true, false],
        ],
        ' ' => [
            [false, false, false],
            [false, false, false],
            [false, false, false],
            [false, false, false],
            [false, false, false],
        ],
        // Default: simple box for unknown chars
        _ => [
            [true, true, true],
            [true, false, true],
            [true, false, true],
            [true, false, true],
            [true, true, true],
        ],
    }
}

/// Width of the grid drawn for `n` characters: `n` glyphs with one blank
/// column between neighbors, and a single column for empty text.
pub open spec fn text_width(n: nat) -> nat {
    if n == 0 {
        1
    } else {
        (4 * n - 1) as nat
    }
}

/// The cell at (x, y) of the grid drawn for `text`: alive (with full decay)
/// exactly where the bitmap of the character at column block x / 4 is set.
pub open spec fn text_cell(text: Seq<char>, x: int, y: int) -> Cell {
    let k = x / 4;
    let col = x % 4;
    if 0 <= x && 0 <= k < text.len() && col < 3 && 0 <= y < 5 && glyph_pattern(text[k])[y][col] {
        Cell::make(true, 255)
    } else {
        Cell::dead_spec()
    }
}

/// The grid drawn for `text` fits in memory: its `width * 5` cells can be
/// counted in a `usize`.
pub open spec fn text_fits(text: Seq<char>) -> bool {
    text_width(text.len()) * 5 <= usize::MAX
}

/// The grid drawn for `text`.
pub open spec fn text_grid(text: Seq<char>) -> GridModel {
    let w = text_width(text.len());
    GridModel {
        width: w,
        height: 5,
        current: Seq::new(w * 5, |i: int| text_cell(text, i % (w as int), i / (w as int))),
        next: Seq::new(w * 5, |i: int| Cell::dead_spec()),
    }
}

/// Whether (x, y) has been drawn after characters `0..i`, rows `0..row` of
/// character `i` and columns `0..col` of that row.
spec fn drawn(i: int, row: int, col: int, x: int, y: int) -> bool {
    let k = x / 4;
    let c = x % 4;
    c < 3 && (k < i || (k == i && (y < row || (y == row && c < col))))
}

/// The grid while `text` is being drawn, up to (i, row, col).
spec fn partial_cells(text: Seq<char>, w: int, i: int, row: int, col: int) -> Seq<Cell> {
    Seq::new(
        (w * 5) as nat,
        |p: int|
            if drawn(i, row, col, p % w, p / w) {
                text_cell(text, p % w, p / w)
            } else {
                Cell::dead_spec()
            },
    )
}

/// Convert text string to a grid
///
/// Each character becomes a 3x5 bitmap with 1-column spacing between chars.
pub fn text_to_grid(text: &str) -> (grid: Grid)
    requires
        text_fits(text@),
    ensures
        grid@ == text_grid(text@),
{
    let chars = chars_of(text);
    let n = chars.len();
    if n == 0 {
        let g = Grid::new(1, CHAR_HEIGHT);
        proof {
            assert(g@.current =~= text_grid(text@).current);
        }
        return g;
    }
    assert(n * (CHAR_WIDTH + CHAR_SPACING) == n * 4) by (nonlinear_arith)
        requires
            CHAR_WIDTH + CHAR_SPACING == 4,
    ;
    // No trailing space after the last character
    let width = n * (CHAR_WIDTH + CHAR_SPACING) - CHAR_SPACING;
    let mut grid = Grid::new(width, CHAR_HEIGHT);
    let ghost w = width as int;
    proof {
        assert(grid@.current =~= partial_cells(chars@, w, 0, 0, 0));
    }
    let mut i: usize = 0;
    while i < n
        invariant
            n == chars@.len(),
            chars@ == text@,
            (4 * n - 1) * 5 <= usize::MAX,
            width == 4 * n - 1,
            w == width,
            0 <= i <= n,
            grid@.wf(),
            grid@.width == width,
            grid@.height == 5,
            grid@.next == Seq::new((w * 5) as nat, |p: int| Cell::dead_spec()),
            grid@.current == partial_cells(chars@, w, i as int, 0, 0),
        decreases n - i,
    {
        assert(i * (CHAR_WIDTH + CHAR_SPACING) == i * 4) by (nonlinear_arith)
            requires
                CHAR_WIDTH + CHAR_SPACING == 4,
        ;
        let x_offset = i * (CHAR_WIDTH + CHAR_SPACING);
        let bitmap = char_to_bitmap(chars[i]);
        let mut y: usize = 0;
        while y < CHAR_HEIGHT
            invariant
                n == chars@.len(),
                (4 * n - 1) * 5 <= usize::MAX,
                width == 4 * n - 1,
                w == width,
                0 <= i < n,
                x_offset == 4 * i,
                y <= 5,
                forall|r: int, k: int|
                    0 <= r < 5 && 0 <= k < 3 ==> #[trigger] bitmap@[r]@[k] == glyph_pattern(
                        chars@[i as int],
                    )[r][k],
                grid@.wf(),
                grid@.width == width,
                grid@.height == 5,
                grid@.next == Seq::new((w * 5) as nat, |p: int| Cell::dead_spec()),
                grid@.current == partial_cells(chars@, w, i as int, y as int, 0),
            decreases 5 - y,
        {
            let mut x: usize = 0;
            while x < CHAR_WIDTH
                invariant
                    n == chars@.len(),
                    (4 * n - 1) * 5 <= usize::MAX,
                    width == 4 * n - 1,
                    w == width,
                    0 <= i < n,
                    x_offset == 4 * i,
                    y < 5,
                    x <= 3,
                    forall|r: int, k: int|
                        0 <= r < 5 && 0 <= k < 3 ==> #[trigger] bitmap@[r]@[k] == glyph_pattern(
                            chars@[i as int],
                        )[r][k],
                    grid@.wf(),
                    grid@.width == width,
                    grid@.height == 5,
                    grid@.next == Seq::new((w * 5) as nat, |p: int| Cell::dead_spec()),
                    grid@.current == partial_cells(chars@, w, i as int, y as int, x as int),
                decreases 3 - x,
            {
                let ghost before = grid@;
                let gx = x_offset + x;
                proof {
                    lemma_draw_step(chars@, w, i as int, y as int, x as int);
                }
                if bitmap[y][x] {
                    grid.set(gx, y, Cell::alive());
                    proof {
                        assert(grid@.current =~= partial_cells(
                            chars@,
                            w,
                            i as int,
                            y as int,
                            x as int + 1,
                        ));
                    }
                } else {
                    proof {
                        assert(grid@.current =~= partial_cells(
                            chars@,
                            w,
                            i as int,
                            y as int,
                            x as int + 1,
                        ));
                    }
                }
                x = x + 1;
            }
            proof {
                lemma_draw_row_done(chars@, w, i as int, y as int);
            }
            y = y + 1;
        }
        proof {
            lemma_draw_char_done(chars@, w, i as int);
        }
        i = i + 1;
    }
    proof {
        lemma_draw_all_done(chars@, w);
    }
    grid
}

/// Drawing column `col` of row `row` of character `i` changes exactly the
/// cell at (4 * i + col, row), which then holds its final value.
proof fn lemma_draw_step(text: Seq<char>, w: int, i: int, row: int, col: int)
    requires
        0 <= i < text.len(),
        w == 4 * text.len() - 1,
        0 <= row < 5,
        0 <= col < 3,
    ensures
        0 <= 4 * i + col < w,
        0 <= row * w + 4 * i + col < w * 5,
        partial_cells(text, w, i, row, col)[row * w + 4 * i + col] == Cell::dead_spec(),
        partial_cells(text, w, i, row, col + 1) == partial_cells(text, w, i, row, col).update(
            row * w + 4 * i + col,
            text_cell(text, 4 * i + col, row),
        ),
        text_cell(text, 4 * i + col, row) == if glyph_pattern(text[i])[row][col] {
            Cell::make(true, 255)
        } else {
            Cell::dead_spec()
        },
{
    let p = row * w + 4 * i + col;
    crate::engine::grid::lemma_index_in_range(w, 5, 4 * i + col, row);
    crate::engine::grid::lemma_div_mod_row(w, 4 * i + col, row);
    vstd::arithmetic::div_mod::lemma_fundamental_div_mod_converse(4 * i + col, 4, i, col);
    let before = partial_cells(text, w, i, row, col);
    let after = partial_cells(text, w, i, row, col + 1);
    assert forall|q: int| 0 <= q < w * 5 && q != p implies #[trigger] after[q] == before[q] by {
        crate::engine::grid::lemma_index_decompose(w, q);
        if drawn(i, row, col + 1, q % w, q / w) != drawn(i, row, col, q % w, q / w) {
            let x = q % w;
            vstd::arithmetic::div_mod::lemma_fundamental_div_mod(x, 4);
            assert(x == 4 * i + col);
            assert(q == row * w + 4 * i + col);
        }
    }
    assert(after =~= before.update(p, text_cell(text, 4 * i + col, row)));
}

/// Finishing a row of character `i` is the same progress as starting the
/// next row.
proof fn lemma_draw_row_done(text: Seq<char>, w: int, i: int, row: int)
    requires
        0 <= i < text.len(),
        w == 4 * text.len() - 1,
        0 <= row < 5,
    ensures
        partial_cells(text, w, i, row, 3) == partial_cells(text, w, i, row + 1, 0),
{
    assert forall|p: int| 0 <= p < w * 5 implies #[trigger] drawn(i, row, 3, p % w, p / w) == drawn(
        i,
        row + 1,
        0,
        p % w,
        p / w,
    ) by {
        crate::engine::grid::lemma_index_decompose(w, p);
        vstd::arithmetic::div_mod::lemma_fundamental_div_mod(p % w, 4);
    }
    assert(partial_cells(text, w, i, row, 3) =~= partial_cells(text, w, i, row + 1, 0));
}

/// Finishing all five rows of character `i` is the same progress as
/// starting character `i + 1`.
proof fn lemma_draw_char_done(text: Seq<char>, w: int, i: int)
    requires
        0 <= i < text.len(),
        w == 4 * text.len() - 1,
    ensures
        partial_cells(text, w, i, 5, 0) == partial_cells(text, w, i + 1, 0, 0),
{
    assert forall|p: int| 0 <= p < w * 5 implies #[trigger] drawn(i, 5, 0, p % w, p / w) == drawn(
        i + 1,
        0,
        0,
        p % w,
        p / w,
    ) by {
        crate::engine::grid::lemma_index_decompose(w, p);
        assert(p / w < 5) by (nonlinear_arith)
            requires
                0 <= p < w * 5,
                0 < w,
        ;
    }
    assert(partial_cells(text, w, i, 5, 0) =~= partial_cells(text, w, i + 1, 0, 0));
}

/// Once every character is drawn the grid holds the drawn text.
proof fn lemma_draw_all_done(text: Seq<char>, w: int)
    requires
        text.len() >= 1,
        w == 4 * text.len() - 1,
    ensures
        partial_cells(text, w, text.len() as int, 0, 0) == text_grid(text).current,
{
    assert forall|p: int| 0 <= p < w * 5 implies #[trigger] partial_cells(
        text,
        w,
        text.len() as int,
        0,
        0,
    )[p] == text_grid(text).current[p] by {
        crate::engine::grid::lemma_index_decompose(w, p);
        vstd::arithmetic::div_mod::lemma_fundamental_div_mod(p % w, 4);
    }
    assert(partial_cells(text, w, text.len() as int, 0, 0) =~= text_grid(text).current);
}


/// Drawing text ignores ASCII letter case: two texts of the same length
/// whose characters agree after ASCII upper-casing draw the same grid.
pub proof fn lemma_text_grid_case_insensitive(a: Seq<char>, b: Seq<char>)
    requires
        a.len() == b.len(),
        forall|i: int| 0 <= i < a.len() ==> ascii_upper(#[trigger] a[i]) == ascii_upper(b[i]),
    ensures
        text_grid(a) == text_grid(b),
{
    let w = text_width(a.len()) as int;
    assert forall|i: int| 0 <= i < w * 5 implies #[trigger] text_grid(a).current[i] == text_grid(
        b,
    ).current[i] by {
        let x = i % w;
        let k = x / 4;
        if 0 <= k < a.len() {
            assert(ascii_upper(a[k]) == ascii_upper(b[k]));
            assert(glyph_pattern(a[k]) == glyph_pattern(b[k]));
        }
    }
    assert(text_grid(a).current =~= text_grid(b).current);
}

/// The grid drawn for `n` characters is `4n - 1` cells wide (one cell for
/// empty text) and five cells tall, with consistent buffers.
pub proof fn lemma_text_grid_shape(text: Seq<char>)
    ensures
        text_grid(text).wf(),
        text_grid(text).height == 5,
        text.len() > 0 ==> text_grid(text).width == 4 * text.len() - 1,
        text.len() == 0 ==> text_grid(text).width == 1,
{
}

/// Lowercase ASCII letters are drawn like their uppercase letters: a text
/// and the text with every `'a'..='z'` replaced by the letter 32 code
/// points below it draw the same grid (e.g. "test" and "TEST").
pub proof fn lemma_text_grid_lowercase(lower: Seq<char>, upper: Seq<char>)
    requires
        lower.len() == upper.len(),
        forall|i: int|
            0 <= i < lower.len() ==> #[trigger] upper[i] == if 'a' <= lower[i] <= 'z' {
                ((lower[i] as u32) - 32) as char
            } else {
                lower[i]
            },
    ensures
        text_grid(lower) == text_grid(upper),
{
    assert forall|i: int| 0 <= i < lower.len() implies ascii_upper(#[trigger] lower[i])
        == ascii_upper(upper[i]) by {
        crate::strings::lemma_ascii_upper_letters(lower[i]);
        crate::strings::lemma_ascii_upper_letters(upper[i]);
    }
    lemma_text_grid_case_insensitive(lower, upper);
}

} // verus!

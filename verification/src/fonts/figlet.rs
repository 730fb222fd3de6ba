use vstd::prelude::*;

use std::collections::HashMap;

use super::bitmap::{BitmapModel, CharBitmap, FontRenderer};
use crate::engine::grid::{
    lemma_index_in_range,
    lemma_progress_done,
    lemma_progress_row,
    lemma_progress_start,
    lemma_progress_step,
    progress,
};
use crate::strings::{
    byte_len,
    byte_length,
    chars_of,
    is_whitespace,
    is_whitespace_spec,
    lemma_byte_len_bounds,
    lemma_lines_bounded,
    lemma_trim_end_char_shape,
    lemma_trim_end_char_len,
    lines_spec,
    parse_usize,
    parse_usize_spec,
    split_lines,
    split_whitespace,
    starts_with,
    starts_with_spec,
    trim,
    trim_end_by,
    trim_end_char,
    trim_end_char_spec,
    trim_spec,
    words_spec,
};

verus! {

broadcast use vstd::std_specs::hash::group_hash_axioms;

/// Why a FIGlet font could not be read.
#[derive(Debug, Clone, Copy, PartialEq, Eq, Structural)]
pub enum FontError {
    /// The data holds no line at all.
    EmptyFile,
    /// The header has fewer than two words.
    InvalidHeader,
    /// The header does not start with the `flf2` signature.
    NotFiglet2,
    /// The header's height is not a decimal `usize`.
    InvalidHeight,
    /// A character definition has fewer lines than the font's height.
    UnexpectedEndOfGlyph,
}

/// The message reported for a font error.
pub open spec fn error_message(e: FontError) -> Seq<char> {
    match e {
        FontError::EmptyFile => "Empty font file"@,
        FontError::InvalidHeader => "Invalid header"@,
        FontError::NotFiglet2 => "Not a FIGlet 2 file"@,
        FontError::InvalidHeight => "Invalid height in header"@,
        FontError::UnexpectedEndOfGlyph => "Unexpected end of glyph"@,
    }
}

impl FontError {
    /// The error's message.
    pub fn message(&self) -> (m: String)
        ensures
            m@ == error_message(*self),
    {
        match self {
            FontError::EmptyFile => String::from_str("Empty font file"),
            FontError::InvalidHeader => String::from_str("Invalid header"),
            FontError::NotFiglet2 => String::from_str("Not a FIGlet 2 file"),
            FontError::InvalidHeight => String::from_str("Invalid height in header"),
            FontError::UnexpectedEndOfGlyph => String::from_str("Unexpected end of glyph"),
        }
    }
}

/// The content of a font: the bitmap of each defined character, and the
/// height shared by all of them.
pub struct FontModel {
    pub glyphs: Map<char, BitmapModel>,
    pub height: nat,
}

/// The height a FIGlet header declares: its second word, read as a
/// decimal `usize`, provided the first word starts with `flf2`.
pub open spec fn header_height(header: Seq<char>) -> Result<nat, FontError> {
    let parts = words_spec(header);
    if parts.len() < 2 {
        Err(FontError::InvalidHeader)
    } else if !starts_with_spec(parts[0], seq!['f', 'l', 'f', '2']) {
        Err(FontError::NotFiglet2)
    } else {
        match parse_usize_spec(parts[1]) {
            Some(h) => Ok(h),
            None => Err(FontError::InvalidHeight),
        }
    }
}

/// A glyph line without its end markers: trailing `@`, then trailing `$`,
/// then trailing `@` again are removed.
pub open spec fn clean_line(line: Seq<char>) -> Seq<char> {
    trim_end_char_spec(trim_end_char_spec(trim_end_char_spec(line, '@'), '$'), '@')
}

/// Width of a glyph: the largest UTF-8 byte length of its cleaned lines.
pub open spec fn glyph_width(lines: Seq<Seq<char>>) -> nat
    decreases lines.len(),
{
    if lines.len() == 0 {
        0
    } else {
        let rest = glyph_width(lines.drop_last());
        let last = byte_len(clean_line(lines.last()));
        if rest >= last {
            rest
        } else {
            last
        }
    }
}

/// Whether the pixel at (x, y) of the glyph drawn by `lines` is set:
/// column x of cleaned line y exists and is not white space.
pub open spec fn glyph_pixel(lines: Seq<Seq<char>>, x: int, y: int) -> bool {
    let line = clean_line(lines[y]);
    0 <= x < line.len() && !is_whitespace_spec(line[x])
}

/// The bitmap drawn by the lines of a character definition.
pub open spec fn glyph_bitmap(lines: Seq<Seq<char>>) -> BitmapModel {
    let w = glyph_width(lines);
    BitmapModel {
        width: w,
        height: lines.len(),
        pixels: Seq::new(
            w * lines.len(),
            |i: int| glyph_pixel(lines, i % (w as int), i / (w as int)),
        ),
    }
}

/// Index of the first line after the comment block that starts at line
/// `j`: the block ends with the first line starting with `$$`, or runs to
/// the end of the data.
pub open spec fn comments_end(lines: Seq<Seq<char>>, j: nat) -> nat
    decreases lines.len() - j,
{
    if j >= lines.len() {
        lines.len()
    } else if starts_with_spec(lines[j as int], seq!['$', '$']) {
        j + 1
    } else {
        comments_end(lines, j + 1)
    }
}

/// The character definitions from line `k` on, added to `acc`: blank lines
/// and lines starting with `$$` are skipped; any other line names the
/// character of its first non-blank column, whose bitmap is drawn by the
/// next `height` lines (a later definition of the same character wins).
pub open spec fn parse_glyphs(
    lines: Seq<Seq<char>>,
    k: nat,
    height: nat,
    acc: Map<char, BitmapModel>,
) -> Result<Map<char, BitmapModel>, FontError>
    decreases lines.len() - k,
{
    if k >= lines.len() {
        Ok(acc)
    } else {
        let trimmed = trim_spec(lines[k as int]);
        if trimmed.len() == 0 || starts_with_spec(lines[k as int], seq!['$', '$']) {
            parse_glyphs(lines, k + 1, height, acc)
        } else if lines.len() - (k + 1) < height {
            Err(FontError::UnexpectedEndOfGlyph)
        } else {
            parse_glyphs(
                lines,
                k + 1 + height,
                height,
                acc.insert(
                    trimmed[0],
                    glyph_bitmap(lines.subrange(k + 1 as int, k + 1 + height as int)),
                ),
            )
        }
    }
}

/// The font a FIGlet file describes: a header line giving the height,
/// a comment block ended by a line starting with `$$`, then the
/// character definitions.
pub open spec fn parse_font(data: Seq<char>) -> Result<FontModel, FontError> {
    let lines = lines_spec(data);
    if lines.len() == 0 {
        Err(FontError::EmptyFile)
    } else {
        match header_height(lines[0]) {
            Err(e) => Err(e),
            Ok(h) => match parse_glyphs(lines, comments_end(lines, 1), h, Map::empty()) {
                Ok(g) => Ok(FontModel { glyphs: g, height: h }),
                Err(e) => Err(e),
            },
        }
    }
}

/// Every bitmap that the character definitions from line `k` on describe
/// (each `height` lines tall) has a pixel count that fits in a usize.
pub open spec fn glyphs_fit(lines: Seq<Seq<char>>, k: nat, height: nat) -> bool
    decreases lines.len() - k,
{
    if k >= lines.len() {
        true
    } else if trim_spec(lines[k as int]).len() == 0 || starts_with_spec(
        lines[k as int],
        seq!['$', '$'],
    ) {
        glyphs_fit(lines, k + 1, height)
    } else if lines.len() - (k + 1) < height {
        true
    } else {
        &&& glyph_width(lines.subrange(k + 1 as int, k + 1 + height as int)) * height
            <= usize::MAX
        &&& glyphs_fit(lines, k + 1 + height, height)
    }
}

/// The data is small enough to be read into memory: each line's UTF-8
/// length fits in a usize (four bytes per character at most), and every
/// glyph bitmap's pixel count fits.
pub open spec fn font_data_fits(data: Seq<char>) -> bool {
    &&& data.len() * 4 <= usize::MAX
    &&& lines_spec(data).len() > 0 ==> match header_height(lines_spec(data)[0]) {
        Ok(h) => {
            &&& glyphs_fit(lines_spec(data), comments_end(lines_spec(data), 1), h)
        },
        Err(_) => true,
    }
}

/// The pixels a glyph's lines set.
spec fn pixel_layer(lines: Seq<Seq<char>>) -> spec_fn(int, int) -> bool {
    |x: int, y: int| glyph_pixel(lines, x, y)
}

/// No pixel set.
spec fn blank_layer() -> spec_fn(int, int) -> bool {
    |x: int, y: int| false
}

/// Cleaning a line never lengthens it.
proof fn lemma_clean_line_shorter(line: Seq<char>)
    ensures
        clean_line(line).len() <= line.len(),
{
    lemma_trim_end_char_len(line, '@');
    lemma_trim_end_char_len(trim_end_char_spec(line, '@'), '$');
    lemma_trim_end_char_len(trim_end_char_spec(trim_end_char_spec(line, '@'), '$'), '@');
}

/// `line` is `r` followed by a run of `@` up to `j`, a run of `$` up to
/// `k` and a run of `@` to the end, where `r` does not end in `@`, does not
/// end in `$` unless the first `@` run is there, and that run is there only
/// after a `$` run.
pub open spec fn end_marks_split(line: Seq<char>, r: Seq<char>, j: int, k: int) -> bool {
    &&& r.len() <= j <= k <= line.len()
    &&& forall|i: int| r.len() <= i < j ==> #[trigger] line[i] == '@'
    &&& forall|i: int| j <= i < k ==> #[trigger] line[i] == '$'
    &&& forall|i: int| k <= i < line.len() ==> #[trigger] line[i] == '@'
    &&& (r.len() == 0 || r.last() != '@')
    &&& (j == r.len() ==> r.len() == 0 || r.last() != '$')
    &&& (k == j ==> j == r.len())
}

/// Cleaning a glyph line removes its end marks the way three
/// `trim_end_matches` calls do (every trailing `@`, then every trailing `$`,
/// then every trailing `@` again). The line is the cleaned line followed by
/// a run of `@` (up to `j`), a run of `$` (up to `k`) and a run of `@` (to
/// the end). The cleaned line does not end in `@`; it does not end in `$`
/// either unless an `@` run follows it; and that `@` run exists only after
/// a `$` run. For example "#$@@" cleans to "#", and "a@" to "a".
pub proof fn lemma_clean_line_strips_end_marks(line: Seq<char>)
    ensures
        ({
            let r = clean_line(line);
            &&& r == line.take(r.len() as int)
            &&& exists|j: int, k: int| #[trigger] end_marks_split(line, r, j, k)
        }),
{
    let s1 = trim_end_char_spec(line, '@');
    let s2 = trim_end_char_spec(s1, '$');
    let r = trim_end_char_spec(s2, '@');
    lemma_trim_end_char_shape(line, '@');
    lemma_trim_end_char_shape(s1, '$');
    lemma_trim_end_char_shape(s2, '@');
    assert(r == clean_line(line));
    let j = s2.len() as int;
    let k = s1.len() as int;
    assert forall|i: int| r.len() <= i < j implies #[trigger] line[i] == '@' by {
        assert(s2[i] == '@');
        assert(s1[i] == s2[i]);
        assert(line[i] == s1[i]);
    }
    assert forall|i: int| j <= i < k implies #[trigger] line[i] == '$' by {
        assert(s1[i] == '$');
        assert(line[i] == s1[i]);
    }
    assert forall|i: int| k <= i < line.len() implies #[trigger] line[i] == '@' by {
        assert(line[i] == '@');
    }
    if k == j {
        assert(s2 =~= s1);
        if s2.len() > 0 {
            assert(s2.last() != '@');
        }
        assert(r =~= s2);
    }
    if j == r.len() {
        assert(r =~= s2);
        if r.len() > 0 {
            assert(s2.last() != '$');
        }
    }
    if r.len() > 0 {
        assert(r.last() != '@');
    }
    assert(r =~= line.take(r.len() as int));
    assert(end_marks_split(line, r, j, k));
}

/// A glyph is as wide as the widest of its cleaned lines.
proof fn lemma_glyph_width_max(lines: Seq<Seq<char>>, y: int)
    requires
        0 <= y < lines.len(),
    ensures
        byte_len(clean_line(lines[y])) <= glyph_width(lines),
    decreases lines.len(),
{
    if y < lines.len() - 1 {
        lemma_glyph_width_max(lines.drop_last(), y);
    }
}

/// A glyph is exactly as wide as the widest of its cleaned lines, counted
/// in UTF-8 bytes: no cleaned line is wider, one of them (if any) is that
/// wide, and a glyph without lines has width 0.
pub proof fn lemma_glyph_width_is_widest(lines: Seq<Seq<char>>)
    ensures
        forall|y: int|
            0 <= y < lines.len() ==> byte_len(clean_line(#[trigger] lines[y])) <= glyph_width(
                lines,
            ),
        lines.len() == 0 ==> glyph_width(lines) == 0,
        lines.len() > 0 ==> exists|y: int|
            0 <= y < lines.len() && glyph_width(lines) == byte_len(clean_line(#[trigger] lines[y])),
    decreases lines.len(),
{
    assert forall|y: int| 0 <= y < lines.len() implies byte_len(clean_line(#[trigger] lines[y]))
        <= glyph_width(lines) by {
        lemma_glyph_width_max(lines, y);
    }
    if lines.len() > 0 {
        let rest = lines.drop_last();
        lemma_glyph_width_is_widest(rest);
        let last = lines.len() - 1;
        if glyph_width(lines) == byte_len(clean_line(lines[last])) {
            assert(0 <= last < lines.len() && glyph_width(lines) == byte_len(
                clean_line(lines[last]),
            ));
        } else {
            let y = choose|y: int|
                0 <= y < rest.len() && glyph_width(rest) == byte_len(clean_line(#[trigger] rest[y]));
            assert(rest[y] == lines[y]);
            assert(0 <= y < lines.len() && glyph_width(lines) == byte_len(clean_line(lines[y])));
        }
    }
}

/// The comment block starting at line `j` runs to the first line that
/// starts with `$$` and includes it; without such a line it runs to the
/// end of the data.
pub proof fn lemma_comments_end_first_marker(lines: Seq<Seq<char>>, j: nat)
    requires
        j <= lines.len(),
    ensures
        j <= comments_end(lines, j) <= lines.len(),
        forall|i: int|
            j <= i < comments_end(lines, j) - 1 ==> !starts_with_spec(
                #[trigger] lines[i],
                seq!['$', '$'],
            ),
        (comments_end(lines, j) > j && starts_with_spec(
            lines[comments_end(lines, j) - 1],
            seq!['$', '$'],
        )) || (comments_end(lines, j) == lines.len() && forall|i: int|
            j <= i < lines.len() ==> !starts_with_spec(#[trigger] lines[i], seq!['$', '$'])),
    decreases lines.len() - j,
{
    if j < lines.len() && !starts_with_spec(lines[j as int], seq!['$', '$']) {
        lemma_comments_end_first_marker(lines, j + 1);
    }
}

/// A FIGlet font: character bitmaps keyed by code point.
pub struct FigletFont {
    glyphs: HashMap<u32, CharBitmap>,
    height: usize,
}

/// The bitmaps of a glyph table, keyed by character.
pub open spec fn glyph_table(glyphs: Map<u32, CharBitmap>) -> Map<char, BitmapModel> {
    Map::new(|c: char| glyphs.contains_key(c as u32), |c: char| glyphs[c as u32]@)
}

impl View for FigletFont {
    type V = FontModel;

    closed spec fn view(&self) -> FontModel {
        FontModel { glyphs: glyph_table(self.glyphs@), height: self.height as nat }
    }
}

impl FigletFont {
    /// Read a font from FIGlet data.
    ///
    /// Errors carry the message of the `FontError` that `parse_font` gives.
    pub fn from_str(data: &str) -> (r: Result<FigletFont, String>)
        requires
            font_data_fits(data@),
        ensures
            parse_font(data@) matches Ok(m) ==> r matches Ok(f) && f@ == m,
            parse_font(data@) matches Err(e) ==> r matches Err(s) && s@ == error_message(e),
    {
        match Self::parse(data) {
            Ok(font) => Ok(font),
            Err(e) => Err(e.message()),
        }
    }

    /// Read a font from FIGlet data.
    pub fn parse(data: &str) -> (r: Result<FigletFont, FontError>)
        requires
            font_data_fits(data@),
        ensures
            parse_font(data@) matches Ok(m) ==> r matches Ok(f) && f@ == m,
            parse_font(data@) matches Err(e) ==> r == Err::<FigletFont, FontError>(e),
    {
        let chars = chars_of(data);
        let lines = split_lines(&chars);
        let ghost ls = lines_spec(data@);
        proof {
            lemma_lines_bounded(data@);
            assert(lines@.map_values(|l: Vec<char>| l@) =~= ls);
        }
        if lines.len() == 0 {
            return Err(FontError::EmptyFile);
        }
        let height = match Self::parse_header(&lines[0]) {
            Ok(h) => h,
            Err(e) => {
                return Err(e);
            },
        };
        // Skip comment lines
        let mut k: usize = 1;
        let mut found = false;
        while k < lines.len() && !found
            invariant
                1 <= k <= lines@.len(),
                lines@.len() == ls.len(),
                forall|i: int| 0 <= i < lines@.len() ==> (#[trigger] lines@[i])@ == ls[i],
                comments_end(ls, 1) == if found {
                    k as nat
                } else {
                    comments_end(ls, k as nat)
                },
            decreases lines@.len() - k,
        {
            if starts_with(&lines[k], &['$', '$']) {
                found = true;
            }
            k = k + 1;
        }
        proof {
            assert(k == comments_end(ls, 1));
        }
        let ghost total = parse_glyphs(ls, comments_end(ls, 1), height as nat, Map::empty());
        let mut glyphs: HashMap<u32, CharBitmap> = HashMap::new();
        proof {
            assert(glyph_table(glyphs@) =~= Map::<char, BitmapModel>::empty());
        }
        // Read character definitions
        while k < lines.len()
            invariant
                k <= lines@.len(),
                lines@.len() == ls.len(),
                ls == lines_spec(data@),
                forall|i: int| 0 <= i < ls.len() ==> (#[trigger] ls[i]).len() <= data@.len(),
                data@.len() * 4 <= usize::MAX,
                glyphs_fit(ls, k as nat, height as nat),
                forall|i: int| 0 <= i < lines@.len() ==> (#[trigger] lines@[i])@ == ls[i],
                total == parse_glyphs(ls, k as nat, height as nat, glyph_table(glyphs@)),
                total == parse_glyphs(ls, comments_end(ls, 1), height as nat, Map::empty()),
                ls.len() > 0,
                header_height(ls[0]) == Ok::<nat, FontError>(height as nat),
            decreases lines@.len() - k,
        {
            let named = Self::extract_char(&lines[k]);
            // Skip blank lines and $$ markers
            if named.is_none() || starts_with(&lines[k], &['$', '$']) {
                k = k + 1;
                continue;
            }
            if lines.len() - (k + 1) < height {
                return Err(FontError::UnexpectedEndOfGlyph);
            }
            proof {
                assert(lines@.subrange(k + 1 as int, k + 1 + height as int).map_values(
                    |l: Vec<char>| l@,
                ) =~= ls.subrange(k + 1 as int, k + 1 + height as int));
            }
            let bitmap = Self::read_glyph(&lines, k + 1, height, Ghost(data@.len()));
            let ch = named.unwrap();
            let ghost before = glyphs@;
            glyphs.insert(ch as u32, bitmap);
            proof {
                let sub = lines@.subrange(k + 1 as int, k + 1 + height as int).map_values(
                    |l: Vec<char>| l@,
                );
                assert(sub =~= ls.subrange(k + 1 as int, k + 1 + height as int));
                let bm = glyph_bitmap(ls.subrange(k + 1 as int, k + 1 + height as int));
                assert forall|c: char| #[trigger] glyph_table(glyphs@).contains_key(c) == glyph_table(
                    before,
                ).insert(ch, bm).contains_key(c) by {
                    if c as u32 == ch as u32 {
                        vstd::utf8::char_u32_cast(c, c as u32);
                        vstd::utf8::char_u32_cast(ch, ch as u32);
                    }
                }
                assert forall|c: char| #[trigger] glyph_table(glyphs@).contains_key(c) implies glyph_table(
                    glyphs@,
                )[c] == glyph_table(before).insert(ch, bm)[c] by {
                    if c as u32 == ch as u32 {
                        vstd::utf8::char_u32_cast(c, c as u32);
                        vstd::utf8::char_u32_cast(ch, ch as u32);
                    }
                }
                assert(glyph_table(glyphs@) =~= glyph_table(before).insert(
                    ch,
                    glyph_bitmap(ls.subrange(k + 1, k + 1 + height)),
                ));
            }
            k = k + 1 + height;
        }
        Ok(FigletFont { glyphs, height })
    }

    /// The character a definition line names, such as `A` in "A  $@": the
    /// line's first non-blank character (`None` for a blank line).
    fn extract_char(line: &Vec<char>) -> (c: Option<char>)
        ensures
            trim_spec(line@).len() == 0 ==> c is None,
            trim_spec(line@).len() > 0 ==> c == Some(trim_spec(line@)[0]),
    {
        let trimmed = trim(line);
        if trimmed.len() == 0 {
            return None;
        }
        Some(trimmed[0])
    }

    /// The bitmap drawn by lines `start .. start + height`.
    fn read_glyph(
        lines: &Vec<Vec<char>>,
        start: usize,
        height: usize,
        Ghost(n): Ghost<nat>,
    ) -> (bitmap: CharBitmap)
        requires
            start + height <= lines@.len(),
            n * 4 <= usize::MAX,
            forall|i: int| 0 <= i < lines@.len() ==> (#[trigger] lines@[i])@.len() <= n,
            glyph_width(lines@.subrange(start as int, start + height).map_values(|l: Vec<char>| l@))
                * height <= usize::MAX,
        ensures
            bitmap@ == glyph_bitmap(
                lines@.subrange(start as int, start + height).map_values(|l: Vec<char>| l@),
            ),
    {
        let ghost sub = lines@.subrange(start as int, start + height).map_values(
            |l: Vec<char>| l@,
        );
        let total = lines.len();
        let mut cleaned: Vec<Vec<char>> = Vec::new();
        let mut max_width: usize = 0;
        let mut y: usize = 0;
        while y < height
            invariant
                y <= height,
                start + height <= lines@.len(),
                total == lines@.len(),
                n * 4 <= usize::MAX,
                forall|i: int| 0 <= i < lines@.len() ==> (#[trigger] lines@[i])@.len() <= n,
                sub == lines@.subrange(start as int, start + height).map_values(
                    |l: Vec<char>| l@,
                ),
                cleaned@.len() == y,
                forall|i: int| 0 <= i < y ==> (#[trigger] cleaned@[i])@ == clean_line(sub[i]),
                max_width == glyph_width(sub.take(y as int)),
            decreases height - y,
        {
            let clean = Self::clean_glyph_line(&lines[start + y]);
            proof {
                lemma_clean_line_shorter(sub[y as int]);
                assert(clean@.len() * 4 <= n * 4);
                assert(sub.take(y as int + 1).drop_last() =~= sub.take(y as int));
            }
            let len = byte_length(&clean);
            if len > max_width {
                max_width = len;
            }
            cleaned.push(clean);
            y = y + 1;
        }
        proof {
            assert(sub.take(height as int) =~= sub);
        }
        let mut bitmap = CharBitmap::new(max_width, height);
        if max_width == 0 {
            proof {
                assert(sub.len() == height);
                assert(glyph_width(sub) == 0);
                assert(glyph_width(sub) * sub.len() == 0) by (nonlinear_arith)
                    requires
                        glyph_width(sub) == 0,
                ;
                assert(bitmap@.pixels =~= glyph_bitmap(sub).pixels);
            }
            return bitmap;
        }
        let ghost w = max_width as int;
        let ghost h = height as int;
        let ghost done = pixel_layer(sub);
        let ghost pending = blank_layer();
        proof {
            lemma_progress_start(w, h, done, pending);
            assert(bitmap.pixels@ =~= progress(w, h, 0, 0, done, pending));
        }
        let mut y: usize = 0;
        while y < height
            invariant
                y <= height,
                w == max_width,
                h == height,
                0 < w,
                sub.len() == height,
                max_width == glyph_width(sub),
                cleaned@.len() == height,
                forall|i: int| 0 <= i < height ==> (#[trigger] cleaned@[i])@ == clean_line(sub[i]),
                done == pixel_layer(sub),
                pending == blank_layer(),
                bitmap.width == max_width,
                bitmap.height == height,
                bitmap.pixels@ == progress(w, h, y as int, 0, done, pending),
            decreases height - y,
        {
            let line = &cleaned[y];
            proof {
                lemma_glyph_width_max(sub, y as int);
                lemma_byte_len_bounds(clean_line(sub[y as int]));
            }
            let mut x: usize = 0;
            while x < line.len()
                invariant
                    x <= line@.len(),
                    y < height,
                    line@ == clean_line(sub[y as int]),
                    line@.len() <= max_width,
                    w == max_width,
                    h == height,
                    0 < w,
                    done == pixel_layer(sub),
                    pending == blank_layer(),
                    bitmap.width == max_width,
                    bitmap.height == height,
                    bitmap.pixels@ == progress(w, h, y as int, x as int, done, pending),
                decreases line@.len() - x,
            {
                proof {
                    lemma_progress_step(w, h, y as int, x as int, done, pending);
                    lemma_index_in_range(w, h, x as int, y as int);
                }
                let ghost before = bitmap.pixels@;
                if !is_whitespace(line[x]) {
                    bitmap.set(x, y, true);
                } else {
                    proof {
                        assert(before.update(y * w + x, done(x as int, y as int)) =~= before);
                    }
                }
                x = x + 1;
            }
            proof {
                assert forall|x: int| line@.len() <= x < w implies #[trigger] done(x, y as int)
                    == pending(x, y as int) by {}
                lemma_progress_row(w, h, y as int, line@.len() as int, done, pending);
            }
            y = y + 1;
        }
        proof {
            lemma_progress_done(w, h, h, done, pending);
            assert(bitmap.pixels@ =~= glyph_bitmap(sub).pixels);
        }
        bitmap
    }

    /// A glyph line without its end markers.
    fn clean_glyph_line(line: &Vec<char>) -> (clean: Vec<char>)
        ensures
            clean@ == clean_line(line@),
    {
        let copy = line.clone();
        proof {
            assert(copy@ =~= line@);
        }
        trim_end_char(trim_end_char(trim_end_char(copy, '@'), '$'), '@')
    }

    /// The bitmap `render_char` gives for `ch`: the character's own glyph,
    /// else the glyph of `?`, else a blank 3-column bitmap.
    pub open spec fn char_bitmap(&self, ch: char) -> BitmapModel {
        if self@.glyphs.contains_key(ch) {
            self@.glyphs[ch]
        } else if self@.glyphs.contains_key('?') {
            self@.glyphs['?']
        } else {
            BitmapModel {
                width: 3,
                height: self@.height,
                pixels: Seq::new(3 * self@.height, |i: int| false),
            }
        }
    }

    /// The height a header line declares.
    fn parse_header(header: &Vec<char>) -> (r: Result<usize, FontError>)
        ensures
            r matches Ok(h) ==> header_height(header@) == Ok::<nat, FontError>(h as nat),
            r matches Err(e) ==> header_height(header@) == Err::<nat, FontError>(e),
    {
        let parts = split_whitespace(header);
        if parts.len() < 2 {
            return Err(FontError::InvalidHeader);
        }
        if !starts_with(&parts[0], &['f', 'l', 'f', '2']) {
            return Err(FontError::NotFiglet2);
        }
        match parse_usize(&parts[1]) {
            Some(h) => Ok(h),
            None => Err(FontError::InvalidHeight),
        }
    }
}

impl FontRenderer for FigletFont {
    /// A character the font lacks, when `?` is missing too, is drawn as a
    /// blank bitmap 3 columns wide, whose pixel count must fit.
    open spec fn can_render(&self, ch: char) -> bool {
        self@.glyphs.contains_key(ch) || self@.glyphs.contains_key('?') || self@.height * 3
            <= usize::MAX
    }

    fn render_char(&self, ch: char) -> (bitmap: CharBitmap)
        ensures
            bitmap@ == self.char_bitmap(ch),
    {
        proof {
            vstd::utf8::char_u32_cast(ch, ch as u32);
            vstd::utf8::char_u32_cast('?', '?' as u32);
        }
        match self.glyphs.get(&(ch as u32)) {
            Some(bitmap) => bitmap.clone(),
            None => match self.glyphs.get(&('?' as u32)) {
                Some(bitmap) => bitmap.clone(),
                None => {
                    let b = CharBitmap::new(3, self.height);
                    proof {
                        assert(b@.pixels =~= self.char_bitmap(ch).pixels);
                    }
                    b
                },
            },
        }
    }

    fn height(&self) -> (h: usize)
        ensures
            h == self@.height,
    {
        self.height
    }
}

} // verus!

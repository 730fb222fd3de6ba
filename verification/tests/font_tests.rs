use lib::fonts::{CharBitmap, FigletFont, FontError, FontRenderer};

const SMALL_FONT: &str = "flf2a$ 3 2 8 -1 2\ncomment line\nsecond comment\n$$\nA  $@\n #$@\n# #$@\n# #@@\n\nB\nBB@\nB B@\nBB@@\n";

#[test]
fn bitmap_get_set() {
    let mut b = CharBitmap::new(3, 2);
    assert_eq!(b.pixels.len(), 6);
    b.set(2, 1, true);
    assert!(b.get(2, 1));
    assert!(!b.get(1, 1));
    assert!(!b.get(3, 0));
    b.set(5, 5, true);
    assert_eq!(b.pixels.iter().filter(|&&p| p).count(), 1);
}

#[test]
fn parse_small_font() {
    let font = FigletFont::from_str(SMALL_FONT).unwrap();
    assert_eq!(font.height(), 3);

    let a = font.render_char('A');
    // " #$" cleans to " #" (2 bytes); "# #$" and "# #@@" clean to "# #" (3 bytes)
    assert_eq!(a.width, 3);
    assert_eq!(a.height, 3);
    assert_eq!(a.pixels, vec![false, true, false, true, false, true, true, false, true]);

    let b = font.render_char('B');
    assert_eq!(b.width, 3);
    assert_eq!(b.pixels, vec![true, true, false, true, false, true, true, true, false]);
}

#[test]
fn unknown_char_falls_back_to_question_mark_then_blank() {
    let font = FigletFont::from_str(SMALL_FONT).unwrap();
    let blank = font.render_char('\u{1F600}');
    assert_eq!(blank.width, 3);
    assert_eq!(blank.height, 3);
    assert!(blank.pixels.iter().all(|&p| !p));

    let with_q = "flf2a 1\n$$\n?\n?@\n";
    let font = FigletFont::from_str(with_q).unwrap();
    let q = font.render_char('z');
    assert_eq!(q.width, 1);
    assert_eq!(q.pixels, vec![true]);
}

#[test]
fn font_errors() {
    assert_eq!(FigletFont::from_str("").err().unwrap(), "Empty font file");
    assert_eq!(FigletFont::from_str("flf2a\n").err().unwrap(), "Invalid header");
    assert_eq!(FigletFont::from_str("tlf2a 4\n").err().unwrap(), "Not a FIGlet 2 file");
    assert_eq!(FigletFont::from_str("flf2a x\n").err().unwrap(), "Invalid height in header");
    assert_eq!(FigletFont::from_str("flf2a -1\n").err().unwrap(), "Invalid height in header");
    assert_eq!(FigletFont::from_str("flf2a 3\n$$\nA\n#@\n").err().unwrap(), "Unexpected end of glyph");
    assert_eq!(FigletFont::parse("flf2a 3\n$$\nA\n#@\n").err().unwrap(), FontError::UnexpectedEndOfGlyph);
}

#[test]
fn header_height_accepts_plus_sign_and_crlf_lines() {
    let font = FigletFont::from_str("flf2a +2\r\n$$\r\nX\r\n#@\r\n #@\r\n").unwrap();
    assert_eq!(font.height(), 2);
    let x = font.render_char('X');
    assert_eq!(x.width, 2);
    assert_eq!(x.pixels, vec![true, false, false, true]);
}

#[test]
fn later_definition_wins_and_dollar_lines_are_skipped() {
    let data = "flf2a 1\nno end of comments marker here\n";
    let font = FigletFont::from_str(data).unwrap();
    assert_eq!(font.height(), 1);
    assert_eq!(font.render_char('n').width, 3);

    let data = "flf2a 1\n$$\nQ\n#@\n$$ skipped\nQ\n##@\n";
    let font = FigletFont::from_str(data).unwrap();
    assert_eq!(font.render_char('Q').width, 2);
}

#[test]
fn font_without_glyphs_keeps_any_height() {
    let data = format!("flf2a$ {} 2 8 -1 0\n$$\n", usize::MAX);
    let font = FigletFont::from_str(&data).unwrap();
    assert_eq!(font.height(), usize::MAX);
}

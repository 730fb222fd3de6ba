use lib::glyphs::{GlyphSet, GlyphSetError};

#[test]
fn test_glyph_set_boundaries() {
    let set = GlyphSet::classic();

    // Fully alive → first glyph
    assert_eq!(set.map(255), '█');

    // Fully dead → last glyph
    assert_eq!(set.map(0), ' ');
}

#[test]
fn test_glyph_mapping_progression() {
    let set = GlyphSet::classic();

    // As decay decreases, glyphs should progress through the set
    let glyphs: Vec<char> = (0..=255).step_by(51).map(|d| set.map(d)).collect();

    // Should have different glyphs at different decay levels
    assert!(glyphs.contains(&'█')); // High decay
    assert!(glyphs.contains(&' ')); // Low decay
}

#[test]
fn test_custom_glyph_set() {
    let set = GlyphSet::new(vec!['A', 'B', 'C']).unwrap();

    assert_eq!(set.len(), 3);
    assert_eq!(set.map(255), 'A'); // Alive
    assert_eq!(set.map(0), 'C'); // Dead
}

#[test]
fn test_glyph_set_too_few() {
    let result = GlyphSet::new(vec!['A']);
    assert!(result.is_err());

    match result {
        Err(GlyphSetError::TooFewGlyphs) => (),
        _ => panic!("Expected TooFewGlyphs error"),
    }
}

#[test]
fn test_preset_sets() {
    // Just verify they create valid sets
    assert!(GlyphSet::classic().len() >= 2);
    assert!(GlyphSet::cyberpunk().len() >= 2);
    assert!(GlyphSet::matrix().len() >= 2);
    assert!(GlyphSet::dots().len() >= 2);
    assert!(GlyphSet::binary().len() >= 2);
    assert!(GlyphSet::ascii().len() >= 2);
}

#[test]
fn test_glyph_index_clamping() {
    let set = GlyphSet::new(vec!['A', 'B']).unwrap();

    // Should clamp to valid indices
    assert_eq!(set.decay_to_index(255), 0); // First glyph
    assert_eq!(set.decay_to_index(0), 1); // Last glyph
}

#[test]
fn glyph_index_exact_values() {
    let set = GlyphSet::classic(); // six glyphs
    // (255 - d) * 5 / 255 rounded to nearest
    assert_eq!(set.decay_to_index(204), 1); // 51 * 5 / 255 = 1.0
    assert_eq!(set.decay_to_index(128), 2); // 127 * 5 / 255 = 2.49
    assert_eq!(set.decay_to_index(127), 3); // 128 * 5 / 255 = 2.51
    assert_eq!(set.decay_to_index(26), 4); // 229 * 5 / 255 = 4.49
    assert_eq!(set.decay_to_index(25), 5); // 230 * 5 / 255 = 4.51
    assert_eq!(set.map(128), '▒');
    assert_eq!(set.map(127), '░');
}

#[test]
fn glyph_index_never_increases_with_decay() {
    let set = GlyphSet::cyberpunk();
    let mut prev = set.decay_to_index(0);
    for d in 1..=255u8 {
        let idx = set.decay_to_index(d);
        assert!(idx <= prev);
        assert!(idx < set.len());
        prev = idx;
    }
}

#[test]
fn empty_and_two_glyph_sets() {
    assert_eq!(GlyphSet::new(vec![]).unwrap_err(), GlyphSetError::TooFewGlyphs);
    let set = GlyphSet::new(vec!['x', 'y']).unwrap();
    assert!(!set.is_empty());
    assert_eq!(set.map(128), 'x');
    assert_eq!(set.map(127), 'y');
    assert_eq!(GlyphSetError::TooFewGlyphs.message(), "glyph set must have at least 2 glyphs");
    let copy = set.clone();
    assert_eq!(copy.len(), 2);
    assert_eq!(copy.map(0), 'y');
}

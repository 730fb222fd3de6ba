use lib::glyphs::GlyphSet;
use lib::rules::{Conway, HighLife, Seeds};
use lib::engine::Automata;
use lib::transition::morph::merge_grids;
use lib::transition::text::text_to_grid;
use lib::transition::{Frame, MorphBuilder, Transition};

#[test]
fn test_builder_creation() {
    let builder = MorphBuilder::new("start", "end");

    assert_eq!(builder.start_text(), "start");
    assert_eq!(builder.end_text(), "end");
    assert_eq!(builder.generation_count(), 30); // default
}

#[test]
fn test_builder_configuration() {
    let builder = MorphBuilder::new("a", "b").generations(50).decay_rate(64);

    assert_eq!(builder.generation_count(), 50);
    assert_eq!(builder.configured_decay_rate(), 64);
}

#[test]
fn test_builder_build() {
    let transition = MorphBuilder::new("hi", "bye").generations(10).build();

    assert_eq!(transition.len(), 10);
}

#[test]
fn test_morph_convenience() {
    let transition = lib::morph("test", "done").generations(5).build();

    assert_eq!(transition.len(), 5);
}

#[test]
fn test_full_morph() {
    let frames: Vec<_> = lib::morph("a", "b").generations(3).glyph_set(GlyphSet::ascii()).build().frames();

    assert_eq!(frames.len(), 3);

    // Each frame should be renderable
    for frame in &frames {
        let rendered = frame.render();
        assert!(!rendered.is_empty());
    }
}

/// Test different rules
#[test]
fn test_all_rules() {
    // Test Conway
    {
        let frames: Vec<_> = lib::morph("A", "B").generations(3).rule(Conway).build().frames();
        assert_eq!(frames.len(), 3);
    }

    // Test HighLife
    {
        let frames: Vec<_> = lib::morph("A", "B").generations(3).rule(HighLife).build().frames();
        assert_eq!(frames.len(), 3);
    }

    // Test Seeds
    {
        let frames: Vec<_> = lib::morph("A", "B").generations(3).rule(Seeds).build().frames();
        assert_eq!(frames.len(), 3);
    }
}

/// The main event: TEST → COMPLETE morph
#[test]
fn test_morph_test_to_complete() {
    let frames: Vec<Frame> = lib::morph("TEST", "COMPLETE")
        .generations(15)
        .glyph_set(GlyphSet::classic())
        .decay_rate(48)
        .build()
        .frames();

    // Should generate 15 frames
    assert_eq!(frames.len(), 15);

    // Each frame should be renderable
    for (i, frame) in frames.iter().enumerate() {
        let rendered = frame.render();

        assert!(!rendered.is_empty(), "Frame {} should not be empty", i);

        // Each frame should have multiple lines (height of 5)
        let line_count = rendered.lines().count();
        assert_eq!(line_count, 5, "Frame {} should have 5 lines", i);
    }

    // First frame should have visible content
    let first_rendered = frames[0].render();
    assert!(first_rendered.contains('█') || first_rendered.contains('#'), "First frame should have visible glyphs");

    // Last frame should have visible content
    let last_rendered = frames[frames.len() - 1].render();
    assert!(last_rendered.contains('█') || last_rendered.contains('#'), "Last frame should have visible glyphs");

    // Frames should change over time (not all identical)
    let unique_frames: std::collections::HashSet<_> = frames.iter().map(|f| f.render()).collect();
    assert!(unique_frames.len() > 1, "Frames should evolve over time");
}

/// Test with different glyph sets
#[test]
fn test_morph_with_cyberpunk() {
    let frames: Vec<Frame> = lib::morph("HI", "BYE").generations(10).glyph_set(GlyphSet::cyberpunk()).build().frames();

    assert_eq!(frames.len(), 10);

    // Should have cyberpunk glyphs
    let rendered = frames.iter().map(|f| f.render()).collect::<String>();

    // Cyberpunk set includes these
    let has_cyberpunk_glyphs = rendered.contains('▰')
        || rendered.contains('▓')
        || rendered.contains('▒')
        || rendered.contains('░')
        || rendered.contains('▱');

    assert!(has_cyberpunk_glyphs, "Should use cyberpunk glyphs");
}

/// Test with ASCII-safe glyph set
#[test]
fn test_morph_with_ascii() {
    let frames: Vec<Frame> = lib::morph("GO", "OK").generations(5).glyph_set(GlyphSet::ascii()).build().frames();

    assert_eq!(frames.len(), 5);

    // ASCII set should only use #, +, ., and space
    let rendered = frames.iter().map(|f| f.render()).collect::<String>();

    for ch in rendered.chars() {
        assert!(
            ch == '#' || ch == '+' || ch == '.' || ch == ' ' || ch == '\n',
            "ASCII mode should only use ASCII-safe chars, found '{}'",
            ch
        );
    }
}

/// Quick smoke test
#[test]
fn test_quick_morph() {
    let frames: Vec<Frame> = lib::morph("A", "B").generations(3).build().frames();

    assert_eq!(frames.len(), 3);
}

#[test]
fn test_numbers() {
    let transition = lib::morph("123", "456").generations(10).build();

    let frames: Vec<_> = transition.frames();
    assert_eq!(frames.len(), 10);

    for frame in &frames {
        assert!(!frame.render().is_empty());
    }
}

#[test]
fn test_punctuation() {
    let transition = lib::morph("Hello!", "Goodbye?").generations(15).build();

    let frames: Vec<_> = transition.frames();
    assert_eq!(frames.len(), 15);
}

#[test]
fn test_mixed_case() {
    let transition = lib::morph("AbC", "xYz").generations(12).build();

    let frames: Vec<_> = transition.frames();
    assert_eq!(frames.len(), 12);
}

#[test]
fn test_special_chars() {
    let transition = lib::morph("(A+B)", "[X-Y]").generations(10).build();

    let frames: Vec<_> = transition.frames();
    assert_eq!(frames.len(), 10);
}

#[test]
fn test_comprehensive() {
    let transition = lib::morph("Hello, World!", "Goodbye 2024!").generations(20).glyph_set(GlyphSet::cyberpunk()).build();

    let frames: Vec<_> = transition.frames();
    assert_eq!(frames.len(), 20);

    for (i, frame) in frames.iter().enumerate() {
        let rendered = frame.render();
        assert!(!rendered.is_empty(), "Frame {} should not be empty", i);
    }
}

#[test]
fn first_frame_shows_the_overlay_of_both_texts() {
    // "L" (start) overlaid with "T" (end): start cells at full decay, cells
    // only in the end text at decay 128.
    let frames = lib::morph("L", "T").generations(1).glyph_set(GlyphSet::classic()).build().frames();
    assert_eq!(frames.len(), 1);
    let f = &frames[0];
    assert_eq!((f.width, f.height), (3, 5));
    assert_eq!(f.get(0, 0), '█'); // in both: start wins
    assert_eq!(f.get(1, 0), '▒'); // only in "T": decay 128
    assert_eq!(f.get(1, 1), '▒');
    assert_eq!(f.get(2, 1), ' ');
    assert_eq!(f.render(), "█▒▒\n█▒ \n█▒ \n█▒ \n███");
}

#[test]
fn zero_generations_yield_no_frames() {
    let transition = lib::morph("A", "B").generations(0).build();
    assert_eq!(transition.len(), 0);
    assert!(transition.frames().is_empty());
}

#[test]
fn built_transition_runs_the_configured_rule() {
    let built = lib::morph("HI", "OK").rule(Seeds).generations(4).build().frames();

    let grid = merge_grids(&text_to_grid("HI"), &text_to_grid("OK"));
    let automata = Automata::new(grid, Box::new(Seeds));
    let by_hand = Transition::new(automata, GlyphSet::classic(), 4).frames();
    assert_eq!(built, by_hand);

    let conway = lib::morph("HI", "OK").generations(4).build().frames();
    assert_eq!(built[0], conway[0]);
    assert_ne!(built[1], conway[1]);
}

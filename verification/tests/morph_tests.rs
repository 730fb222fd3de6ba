use lib::engine::{Automata, Cell, Grid};
use lib::glyphs::GlyphSet;
use lib::rules::Conway;
use lib::transition::morph::merge_grids;
use lib::transition::{Frame, Transition};

#[test]
fn test_transition_creation() {
    let grid = Grid::new(5, 5);
    let automata = Automata::new(grid, Box::new(Conway));
    let glyph_set = GlyphSet::classic();

    let transition = Transition::new(automata, glyph_set, 10);

    assert_eq!(transition.len(), 10);
}

#[test]
fn test_transition_iteration() {
    let mut grid = Grid::new(5, 5);

    // Create a blinker
    grid.set(2, 1, Cell::alive());
    grid.set(2, 2, Cell::alive());
    grid.set(2, 3, Cell::alive());

    let automata = Automata::new(grid, Box::new(Conway));
    let glyph_set = GlyphSet::ascii();

    let transition = Transition::new(automata, glyph_set, 5);

    let frames: Vec<Frame> = transition.frames();

    assert_eq!(frames.len(), 5);

    // Each frame should be the right size
    for frame in &frames {
        assert_eq!(frame.width, 5);
        assert_eq!(frame.height, 5);
    }
}

#[test]
fn test_transition_exact_size() {
    let grid = Grid::new(3, 3);
    let automata = Automata::new(grid, Box::new(Conway));
    let glyph_set = GlyphSet::classic();

    let mut transition = Transition::new(automata, glyph_set, 10);

    assert_eq!(transition.len(), 10);

    // After taking some frames
    transition.next();
    transition.next();

    assert_eq!(transition.len(), 8);
}

#[test]
fn test_merge_grids() {
    let mut start = Grid::new(5, 5);
    start.set(0, 0, Cell::alive());
    start.set(1, 1, Cell::alive());

    let mut end = Grid::new(5, 5);
    end.set(3, 3, Cell::alive());
    end.set(4, 4, Cell::alive());

    let merged = merge_grids(&start, &end);

    // Should have cells from both grids
    assert!(merged.get(0, 0).is_alive()); // from start
    assert!(merged.get(1, 1).is_alive()); // from start
    assert!(merged.get(3, 3).is_alive()); // from end
    assert!(merged.get(4, 4).is_alive()); // from end
}

#[test]
fn merge_grids_decay_and_size() {
    let mut start = Grid::new(2, 4);
    start.set(1, 3, Cell::with_decay(true, 3));
    start.set(0, 0, Cell::alive());
    let mut end = Grid::new(5, 1);
    end.set(0, 0, Cell::alive());
    end.set(4, 0, Cell::alive());

    let merged = merge_grids(&start, &end);
    assert_eq!(merged.width(), 5);
    assert_eq!(merged.height(), 4);
    // alive in start: full decay, whatever the start cell's decay
    assert_eq!(merged.get(1, 3), Cell::alive());
    assert_eq!(merged.get(0, 0), Cell::alive());
    // alive only in end: decay 128
    assert_eq!(merged.get(4, 0), Cell::with_decay(true, 128));
    assert_eq!(merged.get(2, 2), Cell::dead());
}

#[test]
fn transition_stops_after_its_generations() {
    let grid = Grid::new(2, 2);
    let automata = Automata::new(grid, Box::new(Conway));
    let mut transition = Transition::new(automata, GlyphSet::binary(), 2);
    assert_eq!(transition.size_hint(), (2, Some(2)));
    assert!(transition.next().is_some());
    assert!(transition.next().is_some());
    assert!(transition.next().is_none());
    assert!(transition.next().is_none());
    assert_eq!(transition.len(), 0);
}

#[test]
fn transition_frames_follow_decay() {
    // A lone live cell dies; its glyph fades with the decay.
    let mut grid = Grid::new(1, 1);
    grid.set(0, 0, Cell::alive());
    let automata = Automata::new(grid, Box::new(Conway)).with_decay_rate(128);
    let frames = Transition::new(automata, GlyphSet::ascii(), 3).frames();
    let glyphs: Vec<char> = frames.iter().map(|f| f.get(0, 0)).collect();
    // decay 255 -> 127 -> 0 over the ascii set "#+. "
    assert_eq!(glyphs, vec!['#', '.', ' ']);
}

use lib::transition::text::{char_to_bitmap, text_to_grid};

#[test]
fn test_char_to_bitmap() {
    let t = char_to_bitmap('T');

    // Top row should be solid
    assert!(t[0][0] && t[0][1] && t[0][2]);

    // Middle column should be solid
    assert!(t[1][1] && t[2][1] && t[3][1] && t[4][1]);
}

#[test]
fn test_text_to_grid() {
    let grid = text_to_grid("T");

    // Should be 3 wide (one char) and 5 tall
    assert_eq!(grid.width(), 3);
    assert_eq!(grid.height(), 5);

    // Should have some alive cells
    let alive_count = grid.cells().into_iter().filter(|(_, _, cell)| cell.is_alive()).count();
    assert!(alive_count > 0, "Should have alive cells for 'T'");
}

#[test]
fn test_text_to_grid_multiple_chars() {
    let grid = text_to_grid("HI");

    // 3 + 1 (spacing) + 3 = 7 wide
    assert_eq!(grid.width(), 7);
    assert_eq!(grid.height(), 5);
}

#[test]
fn test_text_to_grid_empty() {
    let grid = text_to_grid("");

    // Should return minimal grid
    assert_eq!(grid.width(), 1);
    assert_eq!(grid.height(), 5);
}

#[test]
fn test_text_to_grid_case_insensitive() {
    let upper = text_to_grid("T");
    let lower = text_to_grid("t");

    // Should be same dimensions
    assert_eq!(upper.width(), lower.width());
    assert_eq!(upper.height(), lower.height());
}

#[test]
fn lower_and_upper_case_draw_the_same_cells() {
    let upper = text_to_grid("MAPLE");
    let lower = text_to_grid("maple");
    assert_eq!(upper.cells(), lower.cells());
}

#[test]
fn unknown_characters_draw_a_box_and_space_is_blank() {
    let b = char_to_bitmap('?');
    assert_eq!(
        b,
        [
            [true, true, true],
            [true, false, true],
            [true, false, true],
            [true, false, true],
            [true, true, true],
        ]
    );
    assert_eq!(char_to_bitmap(' '), [[false; 3]; 5]);
    assert_eq!(char_to_bitmap('s'), char_to_bitmap('S'));
}

#[test]
fn text_grid_places_characters_with_spacing() {
    // "L" then " " then "T": the spacing column and the blank glyph are dead.
    let grid = text_to_grid("L T");
    assert_eq!(grid.width(), 11);
    // L: left column set, bottom row set
    assert!(grid.get(0, 0).is_alive());
    assert!(!grid.get(1, 0).is_alive());
    assert!(grid.get(2, 4).is_alive());
    // spacing column after L
    for y in 0..5 {
        assert!(!grid.get(3, y).is_alive());
    }
    // the space glyph occupies x = 4..7 and is blank
    for y in 0..5 {
        for x in 4..7 {
            assert!(!grid.get(x, y).is_alive());
        }
    }
    // T starts at x = 8: top row solid
    assert!(grid.get(8, 0).is_alive() && grid.get(9, 0).is_alive() && grid.get(10, 0).is_alive());
    assert_eq!(grid.get(9, 2).decay(), 255);
}

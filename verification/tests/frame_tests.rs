use lib::transition::Frame;

#[test]
fn test_frame_creation() {
    let frame = Frame::new(5, 3);
    assert_eq!(frame.width, 5);
    assert_eq!(frame.height, 3);
    assert_eq!(frame.glyphs.len(), 15);

    // Should be filled with spaces
    for &glyph in &frame.glyphs {
        assert_eq!(glyph, ' ');
    }
}

#[test]
fn test_frame_set_get() {
    let mut frame = Frame::new(3, 3);

    frame.set(0, 0, 'A');
    frame.set(1, 1, 'B');
    frame.set(2, 2, 'C');

    assert_eq!(frame.get(0, 0), 'A');
    assert_eq!(frame.get(1, 1), 'B');
    assert_eq!(frame.get(2, 2), 'C');
}

#[test]
fn test_frame_render() {
    let mut frame = Frame::new(3, 2);

    frame.set(0, 0, 'A');
    frame.set(1, 0, 'B');
    frame.set(2, 0, 'C');
    frame.set(0, 1, 'X');
    frame.set(1, 1, 'Y');
    frame.set(2, 1, 'Z');

    let rendered = frame.render();
    assert_eq!(rendered, "ABC\nXYZ");
}

#[test]
fn test_frame_render_into() {
    let mut frame = Frame::new(2, 2);
    frame.set(0, 0, '█');
    frame.set(1, 1, '█');

    let mut buffer = String::new();
    frame.render_into(&mut buffer);

    assert_eq!(buffer, "█ \n █");
}

#[test]
fn test_frame_display() {
    let mut frame = Frame::new(2, 2);
    frame.set(0, 0, '#');

    let displayed = frame.render();
    assert!(displayed.contains('#'));
}

#[test]
fn test_frame_out_of_bounds() {
    let frame = Frame::new(3, 3);

    // Out of bounds should return space
    assert_eq!(frame.get(10, 10), ' ');

    let mut frame = Frame::new(3, 3);
    // Setting out of bounds shouldn't panic
    frame.set(10, 10, 'X');
}

#[test]
fn render_into_replaces_previous_content() {
    let mut frame = Frame::new(1, 3);
    frame.set(0, 1, 'x');
    let mut buffer = String::from("old text");
    frame.render_into(&mut buffer);
    assert_eq!(buffer, " \nx\n ");
}

#[test]
fn render_of_empty_frames() {
    assert_eq!(Frame::new(0, 0).render(), "");
    assert_eq!(Frame::new(3, 0).render(), "");
    assert_eq!(Frame::new(0, 3).render(), "\n\n");
}

#[test]
fn rendered_length_counts_rows_and_newlines() {
    let frame = Frame::new(4, 3);
    let rendered = frame.render();
    assert_eq!(rendered.chars().count(), 3 * 4 + 3 - 1);
    assert_eq!(rendered.lines().count(), 3);
    let copy = frame.clone();
    assert_eq!(copy, frame);
}

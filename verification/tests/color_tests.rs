use lib::color::Color;

#[test]
fn test_color_creation() {
    let color = Color::rgb(100, 150, 200);
    assert_eq!(color.r, 100);
    assert_eq!(color.g, 150);
    assert_eq!(color.b, 200);
}

#[test]
fn test_ansi_fg() {
    let color = Color::rgb(255, 100, 50);
    let ansi = color.to_ansi_fg();
    assert_eq!(ansi, "\x1b[38;2;255;100;50m");
}

#[test]
fn test_ansi_bg() {
    let color = Color::rgb(50, 100, 150);
    let ansi = color.to_ansi_bg();
    assert_eq!(ansi, "\x1b[48;2;50;100;150m");
}

#[test]
fn test_colorize() {
    let color = Color::red();
    let text = color.colorize("hello");
    assert!(text.contains("hello"));
    assert!(text.contains("\x1b["));
    assert!(text.ends_with("\x1b[0m"));
}

#[test]
fn ansi_codes_for_small_and_zero_components() {
    assert_eq!(Color::rgb(0, 7, 10).to_ansi_fg(), "\x1b[38;2;0;7;10m");
    assert_eq!(Color::black().to_ansi_bg(), "\x1b[48;2;0;0;0m");
    assert_eq!(Color::reset(), "\x1b[0m");
}

#[test]
fn colorize_exact_text() {
    assert_eq!(Color::green().colorize("ok"), "\x1b[38;2;0;255;0mok\x1b[0m");
    assert_eq!(Color::blue().colorize(""), "\x1b[38;2;0;0;255m\x1b[0m");
    assert_eq!(Color::cyan().colorize("█"), "\x1b[38;2;0;255;255m█\x1b[0m");
}

#[test]
fn named_colors() {
    assert_eq!(Color::white(), Color::rgb(255, 255, 255));
    assert_eq!(Color::magenta(), Color::rgb(255, 0, 255));
    assert_eq!(Color::yellow(), Color::rgb(255, 255, 0));
}

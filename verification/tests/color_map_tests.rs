use lib::color::{Color, ColorMap, Matrix, Ocean, TokyoNight};

#[test]
fn test_tokyo_night_extremes() {
    let map = TokyoNight;

    let dead = map.map(0);
    let alive = map.map(255);

    // Dead should be dark
    assert!(dead.r < 100);
    assert!(dead.g < 100);

    // Alive should be brighter
    assert!(alive.r > 100 || alive.g > 100 || alive.b > 100);
}

#[test]
fn test_matrix_green() {
    let map = Matrix;

    let dead = map.map(0);
    let alive = map.map(255);

    // Dead should be black
    assert_eq!(dead, Color::black());

    // Alive should be bright green
    assert_eq!(alive, Color::green());
}

#[test]
fn test_color_output() {
    let mut transition = lib::morph("HI", "OK")
        .generations(3)
        .color_map(TokyoNight)
        .build();

    // Render colored
    let colored = transition.render_colored();

    // Should contain ANSI escape codes
    assert!(colored.contains("\x1b["), "Should have ANSI color codes");
    assert!(colored.contains("m"), "Should have ANSI color format");
}

#[test]
fn tokyo_night_exact_colors() {
    let map = TokyoNight;
    assert_eq!(map.map(0), Color::rgb(42, 38, 80));
    assert_eq!(map.map(64), Color::rgb(114, 96, 163));
    assert_eq!(map.map(127), Color::rgb(186, 153, 246));
    assert_eq!(map.map(128), Color::rgb(186, 154, 247));
    assert_eq!(map.map(200), Color::rgb(151, 184, 251));
    assert_eq!(map.map(255), Color::rgb(125, 207, 255));
}

#[test]
fn matrix_exact_colors() {
    let map = Matrix;
    assert_eq!(map.map(64), Color::rgb(0, 50, 0));
    assert_eq!(map.map(127), Color::rgb(0, 99, 0));
    assert_eq!(map.map(128), Color::rgb(0, 100, 0));
    assert_eq!(map.map(200), Color::rgb(0, 188, 0));
}

#[test]
fn ocean_exact_colors() {
    let map = Ocean;
    assert_eq!(map.map(0), Color::rgb(0, 20, 40));
    assert_eq!(map.map(64), Color::rgb(0, 100, 110));
    assert_eq!(map.map(127), Color::rgb(0, 179, 179));
    assert_eq!(map.map(128), Color::rgb(0, 180, 180));
    assert_eq!(map.map(200), Color::rgb(113, 214, 222));
    assert_eq!(map.map(255), Color::rgb(200, 240, 255));
}

#[test]
fn gradients_stay_between_their_stops() {
    for d in 0..=255u8 {
        let c = Ocean.map(d);
        if d < 128 {
            assert!(c.r == 0 && (20..=180).contains(&c.g) && (40..=180).contains(&c.b));
        } else {
            assert!(c.r <= 200 && (180..=240).contains(&c.g) && (180..=255).contains(&c.b));
        }
    }
}

#[test]
fn color_map_names() {
    assert_eq!(TokyoNight.name(), "Tokyo Night");
    assert_eq!(Matrix.name(), "Matrix");
    assert_eq!(Ocean.name(), "Ocean");
}

#[test]
fn lerp_ratio_rounds_down() {
    let from = Color::rgb(255, 0, 10);
    let to = Color::rgb(0, 255, 11);
    assert_eq!(lib::color::map::lerp_ratio(&from, &to, 1, 3), Color::rgb(170, 85, 10));
    assert_eq!(lib::color::map::lerp_ratio(&from, &to, 0, 3), from);
    assert_eq!(lib::color::map::lerp_ratio(&from, &to, 3, 3), to);
}

#[test]
fn test_all_maps_work() {
    let maps: Vec<Box<dyn ColorMap>> = vec![Box::new(TokyoNight), Box::new(Matrix), Box::new(Ocean)];

    for map in maps {
        // Should not panic
        let _ = map.map(0);
        let _ = map.map(127);
        let _ = map.map(255);
    }
}

#[test]
fn test_all_color_maps() {
    // Test Tokyo Night
    {
        let mut transition = lib::morph("A", "B").generations(2).color_map(TokyoNight).build();
        let output = transition.render_colored();
        assert!(output.contains("\x1b["), "TokyoNight should produce colored output");
    }

    // Test Matrix
    {
        let mut transition = lib::morph("A", "B").generations(2).color_map(Matrix).build();
        let output = transition.render_colored();
        assert!(output.contains("\x1b["), "Matrix should produce colored output");
    }
}

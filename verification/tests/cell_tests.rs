use lib::engine::Cell;

#[test]
fn test_cell_creation() {
    let alive = Cell::alive();
    assert!(alive.is_alive());
    assert_eq!(alive.decay(), 255);

    let dead = Cell::dead();
    assert!(!dead.is_alive());
    assert_eq!(dead.decay(), 0);

    let custom = Cell::with_decay(true, 128);
    assert!(custom.is_alive());
    assert_eq!(custom.decay(), 128);
}

#[test]
fn test_decay_toward_alive() {
    let mut cell = Cell::dead();
    cell.set_alive(true);

    // Decay should increase toward 255
    for _ in 0..10 {
        let prev = cell.decay();
        cell.update_decay(32);
        if prev < 255 {
            assert!(cell.decay() >= prev);
        }
    }
}

#[test]
fn test_decay_toward_dead() {
    let mut cell = Cell::alive();
    cell.set_alive(false);

    // Decay should decrease toward 0
    for _ in 0..10 {
        let prev = cell.decay();
        cell.update_decay(32);
        if prev > 0 {
            assert!(cell.decay() <= prev);
        }
    }
}

#[test]
fn test_decay_saturation() {
    let mut cell = Cell::with_decay(true, 250);

    // Should saturate at 255, not overflow
    cell.update_decay(100);
    assert_eq!(cell.decay(), 255);

    cell.set_alive(false);
    cell.update_decay(255);
    assert_eq!(cell.decay(), 0);
}

#[test]
fn decay_step_exact_values() {
    let mut cell = Cell::with_decay(true, 10);
    cell.update_decay(32);
    assert_eq!(cell.decay(), 42);
    assert!(cell.is_alive());

    let mut dying = Cell::with_decay(false, 100);
    dying.update_decay(30);
    assert_eq!(dying.decay(), 70);
    assert!(!dying.is_alive());

    // At the target nothing moves
    let mut full = Cell::alive();
    full.update_decay(200);
    assert_eq!(full.decay(), 255);
    let mut empty = Cell::dead();
    empty.update_decay(200);
    assert_eq!(empty.decay(), 0);

    // A zero rate never moves
    let mut still = Cell::with_decay(true, 7);
    still.update_decay(0);
    assert_eq!(still.decay(), 7);
}

#[test]
fn decay_converges_within_ceiling_steps() {
    // 255 / 32 rounded up is 8 updates
    let mut cell = Cell::dead();
    cell.set_alive(true);
    for _ in 0..8 {
        cell.update_decay(32);
    }
    assert_eq!(cell.decay(), 255);

    let mut cell = Cell::alive();
    cell.set_alive(false);
    for _ in 0..8 {
        cell.update_decay(32);
    }
    assert_eq!(cell.decay(), 0);
}

#[test]
fn set_alive_keeps_decay() {
    let mut cell = Cell::with_decay(false, 77);
    cell.set_alive(true);
    assert!(cell.is_alive());
    assert_eq!(cell.decay(), 77);
    assert_eq!(Cell::default(), Cell::dead());
}

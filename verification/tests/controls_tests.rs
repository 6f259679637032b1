use space_sim::controls::{FrameStats, HeldKeys, Key, Move};

#[test]
fn press_and_release() {
    let mut k = HeldKeys::new();
    assert!(!k.is_held(Key::W));
    k.set_held(Key::W, true);
    assert!(k.is_held(Key::W));
    assert!(!k.is_held(Key::S));
    k.set_held(Key::W, true);
    assert!(k.is_held(Key::W));
    k.set_held(Key::W, false);
    assert!(!k.is_held(Key::W));
    k.set_held(Key::ShiftLeft, false);
    assert!(!k.is_held(Key::ShiftLeft));
}

#[test]
fn no_keys_no_moves() {
    assert!(HeldKeys::new().moves().is_empty());
}

#[test]
fn moves_come_in_fixed_order() {
    let mut k = HeldKeys::new();
    for key in [Key::Space, Key::D, Key::A, Key::S, Key::W, Key::ShiftRight] {
        k.set_held(key, true);
    }
    assert_eq!(
        k.moves(),
        vec![Move::Forward, Move::Backward, Move::Left, Move::Right, Move::Up, Move::Down]
    );
}

#[test]
fn both_shifts_move_down_once() {
    let mut k = HeldKeys::new();
    k.set_held(Key::ShiftLeft, true);
    assert_eq!(k.moves(), vec![Move::Down]);
    k.set_held(Key::ShiftRight, true);
    assert_eq!(k.moves(), vec![Move::Down]);
    k.set_held(Key::ShiftLeft, false);
    assert_eq!(k.moves(), vec![Move::Down]);
    k.set_held(Key::ShiftRight, false);
    assert!(k.moves().is_empty());
}

#[test]
fn frame_rate_is_reported_each_second() {
    let mut stats = FrameStats::new();
    assert!(!stats.tick(false));
    assert!(!stats.tick(false));
    assert_eq!((stats.frame_count, stats.fps), (2, 0));
    assert!(stats.tick(true));
    assert_eq!((stats.frame_count, stats.fps), (0, 3));
    assert!(!stats.tick(false));
    assert_eq!((stats.frame_count, stats.fps), (1, 3));
}

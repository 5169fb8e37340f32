use maze_walk::Keyboard;

#[test]
fn keys_go_down_and_up() {
    let mut kb = Keyboard::new();
    assert!(!kb.is_pressed(7));
    kb.toggle_key(7, true);
    kb.toggle_key(9, true);
    kb.toggle_key(7, true);
    assert!(kb.is_pressed(7));
    assert!(kb.was_just_pressed(9));
    assert_eq!(kb.get_just_pressed(), vec![7, 9]);
    kb.update();
    assert!(!kb.was_just_pressed(7));
    assert!(kb.is_pressed(7));
    kb.toggle_key(7, false);
    assert!(!kb.is_pressed(7));
    assert!(kb.is_pressed(9));
    assert!(kb.get_just_pressed().is_empty());
}

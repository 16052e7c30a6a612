use extrem::input::{ButtonInput, KeyCode, MouseButton};

#[test]
fn edges_last_for_one_frame() {
    let mut keys = ButtonInput::<KeyCode>::default();
    keys.press(KeyCode::Space);
    assert!(keys.pressed(KeyCode::Space));
    assert!(keys.just_pressed(KeyCode::Space));
    keys.end_frame();
    assert!(keys.pressed(KeyCode::Space));
    assert!(!keys.just_pressed(KeyCode::Space));
    keys.release(KeyCode::Space);
    assert!(keys.just_released(KeyCode::Space));
}

#[test]
fn repeated_press_is_not_a_new_edge_and_release_of_an_idle_button_is_ignored() {
    let mut buttons = ButtonInput::<MouseButton>::default();
    buttons.press(MouseButton::Left);
    buttons.end_frame();
    buttons.press(MouseButton::Left);
    assert!(!buttons.just_pressed(MouseButton::Left));
    buttons.release(MouseButton::Other(3));
    assert!(!buttons.just_released(MouseButton::Other(3)));
    buttons.clear();
    assert!(!buttons.pressed(MouseButton::Left));
    assert!(!buttons.just_released(MouseButton::Left));
}

#[test]
fn press_and_release_in_one_frame_record_both_edges() {
    let mut keys = ButtonInput::<KeyCode>::default();
    keys.press(KeyCode::Unknown(9));
    keys.release(KeyCode::Unknown(9));
    assert!(!keys.pressed(KeyCode::Unknown(9)));
    assert!(keys.just_pressed(KeyCode::Unknown(9)));
    assert!(keys.just_released(KeyCode::Unknown(9)));
}

#[test]
fn unknown_codes_are_distinct_buttons() {
    let mut keys = ButtonInput::<KeyCode>::default();
    keys.press(KeyCode::Unknown(0));
    assert!(keys.pressed(KeyCode::Unknown(0)));
    assert!(!keys.pressed(KeyCode::A));
    assert!(!keys.pressed(KeyCode::Unknown(1)));
    let mut buttons = ButtonInput::<MouseButton>::default();
    buttons.press(MouseButton::Other(0));
    assert!(!buttons.pressed(MouseButton::Left));
    buttons.release(MouseButton::Other(0));
    assert!(buttons.just_released(MouseButton::Other(0)));
    assert!(!buttons.just_released(MouseButton::Left));
}
